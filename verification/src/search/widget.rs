//! The zsh integration script: a widget that inserts a picked command into
//! the edit line, printed for `.zshrc` to evaluate.

use vstd::prelude::*;

verus! {

/// The shared part of the zsh integration script.
pub const ZSH_SCRIPT_BASE: &'static str = r#"# gclip zsh integration
# The picker runs on an alternate screen; the prompt returns untouched.
_gclip_use_alt_screen=0
_gclip_use_tput=0

# Shared set-up for the screen switch.
_gclip_begin_ui() {
  _gclip_use_alt_screen=0
  _gclip_use_tput=0
  if command -v tput >/dev/null 2>&1; then
    tput smcup
    _gclip_use_alt_screen=1
    _gclip_use_tput=1
  else
    printf '\033[?1049h' > /dev/tty
    _gclip_use_alt_screen=1
  fi
}

# Shared tear-down for the screen switch.
_gclip_end_ui() {
  if (( _gclip_use_alt_screen )); then
    if (( _gclip_use_tput )); then
      tput rmcup
    else
      printf '\033[?1049l' > /dev/tty
    fi
  fi
}

# Runs the picker and leaves the chosen command in REPLY.
_gclip_pick_command() {
  local query="$1"
  local cmd

  _gclip_begin_ui
  if [[ -z "$query" ]]; then
    cmd="$(command gclip)" || { _gclip_end_ui; return 1; }
  else
    cmd="$(command gclip "$query")" || { _gclip_end_ui; return 1; }
  fi
  _gclip_end_ui

  if [[ -z "$cmd" ]]; then
    return 1
  fi
  REPLY="$cmd"
  return 0
}

# The insertion widget bound to a key.
gclip_insert() {
  local original_lbuffer="$LBUFFER"
  local original_rbuffer="$RBUFFER"
  local query="$LBUFFER"
  local cmd

  if _gclip_pick_command "$query"; then
    cmd="$REPLY"
  else
    LBUFFER="$original_lbuffer"
    RBUFFER="$original_rbuffer"
    zle -R
    return
  fi

  if [[ -n "$query" && "$original_lbuffer" == *"$query" ]]; then
    LBUFFER="${original_lbuffer%$query}$cmd"
  else
    LBUFFER="${original_lbuffer}${cmd}"
  fi
  RBUFFER="$original_rbuffer"
  zle -R
}
zle -N gclip_insert

# Lets a plain gclip call insert as well when the shell is interactive.
gclip() {
  local cmd

  if [[ ! -o interactive ]]; then
    command gclip "$@"
    return
  fi

  if (( $# == 0 )); then
    if _gclip_pick_command ""; then
      print -z -- "$REPLY"
    fi
    return
  fi

  if [[ "$1" == "--" ]]; then
    shift
    if _gclip_pick_command "$*"; then
      print -z -- "$REPLY"
    fi
    return
  fi

  if [[ "$1" == -* ]]; then
    command gclip "$@"
    return
  fi

  if _gclip_pick_command "$*"; then
    print -z -- "$REPLY"
  fi
}
"#;

/// The key binding that only the set-up script adds.
pub const ZSH_BINDKEY_LINE: &'static str = "bindkey '^g' gclip_insert\n";

/// Builds the zsh script: the shared part, with the key binding appended
/// for the set-up variant.
pub fn build_zsh_script(include_bindkey: bool) -> (r: String)
    ensures
        include_bindkey ==> r@ == ZSH_SCRIPT_BASE@ + ZSH_BINDKEY_LINE@,
        !include_bindkey ==> r@ == ZSH_SCRIPT_BASE@,
{
    let mut script = String::from_str(ZSH_SCRIPT_BASE);
    if include_bindkey {
        script.append(ZSH_BINDKEY_LINE);
    }
    script
}

} // verus!
