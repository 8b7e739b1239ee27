//! The decisions around the tmux commands: which pane to capture, the
//! arguments to pass, and how to read what tmux printed.

use vstd::prelude::*;
use vstd::utf8::*;

use crate::text::{owned, str_eq, trim, trimmed};

verus! {

/// Why a tmux answer could not be used.
#[derive(Debug, PartialEq, Eq, Structural)]
pub enum TmuxError {
    /// tmux printed bytes that are not UTF-8.
    InvalidUtf8,
    /// The current window has no previous pane.
    NoPreviousPane,
}

/// Which pane to capture.
#[derive(Debug)]
pub enum PaneTarget {
    /// The current pane.
    Current,
    /// The previous (last active) pane of the current window.
    Previous,
    /// The pane with this target name.
    Named(String),
}

/// Special target identifier for the previous (last active) pane
pub open spec fn previous_pane_target() -> Seq<char> {
    "previous"@
}

/// Resolve the pane named on the command line: none is the current pane,
/// `previous` the previous pane, and any other name that pane.
pub fn pane_target(pane_id: Option<&str>) -> (t: PaneTarget)
    ensures
        match pane_id {
            None => t is Current,
            Some(id) => if id@ == previous_pane_target() {
                t is Previous
            } else {
                t matches PaneTarget::Named(name) && name@ == id@
            },
        },
{
    match pane_id {
        None => PaneTarget::Current,
        Some(id) => if str_eq(id, "previous") {
            PaneTarget::Previous
        } else {
            PaneTarget::Named(owned(id))
        },
    }
}

/// The views of a list of strings.
pub open spec fn strings_view(v: Seq<String>) -> Seq<Seq<char>> {
    v.map_values(|s: String| s@)
}

fn push_arg(args: &mut Vec<String>, a: &str)
    ensures
        strings_view(final(args)@) == strings_view(old(args)@).push(a@),
{
    args.push(owned(a));
    proof {
        assert(strings_view(args@) =~= strings_view(old(args)@).push(a@));
    }
}

/// The arguments of `tmux list-panes` that print the id of the previous pane.
pub fn previous_pane_args() -> (args: Vec<String>)
    ensures
        strings_view(args@) == seq![
            "list-panes"@,
            "-f"@,
            "#{pane_last}"@,
            "-F"@,
            "#{pane_id}"@,
        ],
{
    let mut args: Vec<String> = Vec::new();
    push_arg(&mut args, "list-panes");
    push_arg(&mut args, "-f");
    push_arg(&mut args, "#{pane_last}");
    push_arg(&mut args, "-F");
    push_arg(&mut args, "#{pane_id}");
    proof {
        assert(strings_view(args@) =~= seq![
            "list-panes"@,
            "-f"@,
            "#{pane_last}"@,
            "-F"@,
            "#{pane_id}"@,
        ]);
    }
    args
}

/// The arguments of `tmux capture-pane`: keep escape sequences (`-e`), join
/// wrapped lines (`-J`), print to stdout (`-p`), start at the beginning of the
/// history so the full scrollback is captured (`-S -`), and target the given
/// pane, if any (`-t`).
pub fn capture_pane_args(pane_id: Option<&str>) -> (args: Vec<String>)
    ensures
        strings_view(args@) == seq!["capture-pane"@, "-e"@, "-J"@, "-p"@, "-S"@, "-"@] + match pane_id {
            Some(id) => seq!["-t"@, id@],
            None => Seq::<Seq<char>>::empty(),
        },
{
    let mut args: Vec<String> = Vec::new();
    push_arg(&mut args, "capture-pane");
    push_arg(&mut args, "-e");
    push_arg(&mut args, "-J");
    push_arg(&mut args, "-p");
    push_arg(&mut args, "-S");
    push_arg(&mut args, "-");
    if let Some(id) = pane_id {
        push_arg(&mut args, "-t");
        push_arg(&mut args, id);
    }
    proof {
        assert(strings_view(args@) =~= seq!["capture-pane"@, "-e"@, "-J"@, "-p"@, "-S"@, "-"@]
            + match pane_id {
            Some(id) => seq!["-t"@, id@],
            None => Seq::<Seq<char>>::empty(),
        });
    }
    args
}

/// The kind of desktop whose clipboard to copy to.
#[derive(Debug, Clone, Copy, PartialEq, Eq, Structural)]
pub enum Platform {
    MacOs,
    /// Linux or another Unix with a Wayland session.
    Wayland,
    /// Linux or another Unix with an X11 session.
    X11,
    Windows,
}

/// The commands that take text on their standard input into the clipboard,
/// in the order to try them.
pub open spec fn clipboard_commands_for(platform: Platform) -> Seq<Seq<Seq<char>>> {
    match platform {
        Platform::MacOs => seq![seq!["pbcopy"@]],
        Platform::Wayland => seq![seq!["wl-copy"@]],
        Platform::X11 => seq![
            seq!["xclip"@, "-selection"@, "clipboard"@],
            seq!["xsel"@, "--clipboard"@, "--input"@],
        ],
        Platform::Windows => seq![seq!["clip"@]],
    }
}

/// The clipboard commands to try on `platform`, each as program and arguments.
pub fn clipboard_commands(platform: Platform) -> (cmds: Vec<Vec<String>>)
    ensures
        cmds@.map_values(|c: Vec<String>| strings_view(c@)) == clipboard_commands_for(platform),
{
    let mut cmds: Vec<Vec<String>> = Vec::new();
    match platform {
        Platform::MacOs => {
            let mut c: Vec<String> = Vec::new();
            push_arg(&mut c, "pbcopy");
            assert(strings_view(c@) =~= seq!["pbcopy"@]);
            cmds.push(c);
        },
        Platform::Wayland => {
            let mut c: Vec<String> = Vec::new();
            push_arg(&mut c, "wl-copy");
            assert(strings_view(c@) =~= seq!["wl-copy"@]);
            cmds.push(c);
        },
        Platform::X11 => {
            let mut c: Vec<String> = Vec::new();
            push_arg(&mut c, "xclip");
            push_arg(&mut c, "-selection");
            push_arg(&mut c, "clipboard");
            assert(strings_view(c@) =~= seq!["xclip"@, "-selection"@, "clipboard"@]);
            cmds.push(c);
            let mut c2: Vec<String> = Vec::new();
            push_arg(&mut c2, "xsel");
            push_arg(&mut c2, "--clipboard");
            push_arg(&mut c2, "--input");
            assert(strings_view(c2@) =~= seq!["xsel"@, "--clipboard"@, "--input"@]);
            cmds.push(c2);
        },
        Platform::Windows => {
            let mut c: Vec<String> = Vec::new();
            push_arg(&mut c, "clip");
            assert(strings_view(c@) =~= seq!["clip"@]);
            cmds.push(c);
        },
    }
    proof {
        assert(cmds@.map_values(|c: Vec<String>| strings_view(c@)) =~= clipboard_commands_for(platform));
    }
    cmds
}

/// Calls `String::from_utf8`, which the standard library documents to succeed
/// exactly on valid UTF-8, with the decoded text.
#[verifier::external_body]
fn utf8_string(bytes: Vec<u8>) -> (r: Option<String>)
    ensures
        r is Some <==> valid_utf8(bytes@),
        r matches Some(s) ==> s@ == decode_utf8(bytes@),
{
    String::from_utf8(bytes).ok()
}

/// Read what `tmux capture-pane` printed.
pub fn captured_text(stdout: Vec<u8>) -> (r: Result<String, TmuxError>)
    ensures
        valid_utf8(stdout@) ==> (r matches Ok(s) && s@ == decode_utf8(stdout@)),
        !valid_utf8(stdout@) ==> r == Err::<String, TmuxError>(TmuxError::InvalidUtf8),
{
    match utf8_string(stdout) {
        Some(s) => Ok(s),
        None => Err(TmuxError::InvalidUtf8),
    }
}

/// Read the previous pane's id from what `tmux list-panes` printed: the text
/// with surrounding white space removed, which must not be empty.
pub fn previous_pane_id(stdout: Vec<u8>) -> (r: Result<String, TmuxError>)
    ensures
        !valid_utf8(stdout@) ==> r == Err::<String, TmuxError>(TmuxError::InvalidUtf8),
        valid_utf8(stdout@) && trimmed(decode_utf8(stdout@)).len() == 0 ==> r == Err::<
            String,
            TmuxError,
        >(TmuxError::NoPreviousPane),
        valid_utf8(stdout@) && trimmed(decode_utf8(stdout@)).len() > 0 ==> (r matches Ok(id)
            && id@ == trimmed(decode_utf8(stdout@))),
{
    let text = match utf8_string(stdout) {
        Some(s) => s,
        None => return Err(TmuxError::InvalidUtf8),
    };
    let pane_id = trim(text.as_str());
    if pane_id.as_str().is_empty() {
        return Err(TmuxError::NoPreviousPane);
    }
    Ok(pane_id)
}

} // verus!
