//! What the program tells its user, and its exit code.

use vstd::prelude::*;

use crate::creds::message;

verus! {

/// The version of the program.
pub const VERSION: &'static str = "0.1.0";

/// The help, behind the name and version of the program.
pub const HELP: &'static str =
    " \u{2014} headless envchain replacement using systemd-creds\n\n\
     Usage:\n  \
       Add variables\n    \
       credchain (--set|-s) [--noecho|-n] [--require-passphrase|-p] \\\n    \
       [--no-require-passphrase|-P] [--backend=systemd] NAMESPACE ENV [ENV ..]\n  \
       Execute with variables\n    \
       credchain [--backend=systemd] NAMESPACE[,NAMESPACE...] COMMAND [ARG ...]\n  \
       List namespaces / variables\n    \
       credchain --list [NAMESPACE]\n  \
       Remove variables\n    \
       credchain (--unset|-u) NAMESPACE ENV [ENV ..]\n\n\
     Options:\n  \
       --set (-s)        add variable(s) to NAMESPACE\n  \
       --noecho (-n)     disable echo when prompting (requires a tty)\n  \
       --require-passphrase (-p)\n    \
         parsed for interface compatibility, then rejected: the systemd\n    \
         backend has no per-item passphrase\n  \
       --no-require-passphrase (-P)\n    \
         accepted (redundant): systemd already does not ask for a passphrase\n  \
       --list (-l)       list namespaces, or variables in a namespace\n  \
       --unset (-u)      remove variable(s) from a namespace\n  \
       --backend=systemd select the storage backend (only 'systemd' is built)\n\n\
     Notes:\n  \
       credchain never prints secret values. There is no value-display\n  \
       command; --list does not decrypt. To inspect a value, run a trusted\n  \
       child through the execution path.\n  \
       Namespaces match [A-Za-z0-9._-]{1,63}; variables match\n  \
       [A-Za-z_][A-Za-z0-9_]*. Values may not contain NUL.\n\n";

/// An exit code, with what goes to stdout and to stderr before it.
#[derive(Debug)]
pub struct Report {
    pub code: i32,
    pub out: String,
    pub err: String,
}

pub struct ReportView {
    pub code: i32,
    pub out: Seq<char>,
    pub err: Seq<char>,
}

impl View for Report {
    type V = ReportView;

    open spec fn view(&self) -> ReportView {
        ReportView { code: self.code, out: self.out@, err: self.err@ }
    }
}

/// Success, with some text on stdout.
pub open spec fn success_of(out: Seq<char>) -> ReportView {
    ReportView { code: 0, out, err: Seq::empty() }
}

/// One line on stderr, under the name of the program.
pub open spec fn complaint_of(code: i32, text: Seq<char>) -> ReportView {
    ReportView { code, out: Seq::empty(), err: "credchain: "@ + text + "\n"@ }
}

/// The help text.
pub open spec fn help_of() -> Seq<char> {
    "credchain "@ + VERSION@ + HELP@
}

/// The help on stderr.
pub open spec fn help_report_of(code: i32) -> ReportView {
    ReportView { code, out: Seq::empty(), err: help_of() }
}

/// One line on stderr, and the help behind it.
pub open spec fn usage_of(text: Seq<char>) -> ReportView {
    ReportView { code: 2, out: Seq::empty(), err: "credchain: "@ + text + "\n"@ + help_of() }
}

/// Success, with some text on stdout.
pub fn success(out: String) -> (r: Report)
    ensures
        r@ == success_of(out@),
{
    Report { code: 0, out, err: String::new() }
}

/// One line on stderr, under the name of the program.
pub fn complaint(code: i32, text: &str) -> (r: Report)
    ensures
        r@ == complaint_of(code, text@),
{
    let mut err = message("credchain: ", text);
    err.append("\n");
    Report { code, out: String::new(), err }
}

/// The help text.
pub fn help_text() -> (r: String)
    ensures
        r@ == help_of(),
{
    let mut text = message("credchain ", VERSION);
    text.append(HELP);
    text
}

/// The help on stderr.
pub fn help_report(code: i32) -> (r: Report)
    ensures
        r@ == help_report_of(code),
{
    Report { code, out: String::new(), err: help_text() }
}

/// One line on stderr, and the help behind it.
pub fn usage(text: &str) -> (r: Report)
    ensures
        r@ == usage_of(text@),
{
    let mut err = message("credchain: ", text);
    err.append("\n");
    err.append(help_text().as_str());
    Report { code: 2, out: String::new(), err }
}

// ---- laws --------------------------------------------------------------------

/// A report is told in full by its view.
pub proof fn reports_are_told_in_full(r: Report)
    ensures
        r@.code == r.code,
        r@.out == r.out@,
        r@.err == r.err@,
{
}

/// A complaint prints nothing to stdout, and to stderr the whole text, between the
/// name of the program and a newline; with the help behind it where the usage was
/// wrong.
pub proof fn complaints_are_told_whole(code: i32, text: Seq<char>)
    ensures
        complaint_of(code, text).code == code,
        complaint_of(code, text).out.len() == 0,
        exists|head: Seq<char>, tail: Seq<char>|
            complaint_of(code, text).err == #[trigger] (head + text + tail) && head
                == "credchain: "@ && tail == "\n"@,
        usage_of(text).code == 2,
        usage_of(text).out.len() == 0,
        usage_of(text).err == complaint_of(2, text).err + help_report_of(2).err,
        success_of(text).code == 0,
        success_of(text).out == text,
        success_of(text).err.len() == 0,
{
    let (head, tail) = ("credchain: "@, "\n"@);
    assert(complaint_of(code, text).err == head + text + tail);
}

/// The help begins with the name and the version of the program and goes on with the
/// whole text; as an error or not, it is all that is printed.
pub proof fn the_help_is_told_whole(code: i32)
    ensures
        ("credchain "@ + VERSION@).is_prefix_of(help_of()),
        HELP@.is_suffix_of(help_of()),
        help_of().len() == "credchain "@.len() + VERSION@.len() + HELP@.len(),
        help_report_of(code).code == code,
        help_report_of(code).out.len() == 0,
        help_report_of(code).err == help_of(),
{
    let head = "credchain "@ + VERSION@;
    let help = help_of();
    assert(help.subrange(0, head.len() as int) =~= head);
    assert(help.subrange(help.len() - HELP@.len(), help.len() as int) =~= HELP@);
}

} // verus!
