//! Prompting for values, with or without echo.

use vstd::prelude::*;

use crate::failure::{bytes_view, outcome_view, Failure, FailureKind, FailureView};

verus! {

/// A value that was typed.
pub struct PromptResult {
    pub value: Vec<u8>,
    /// `true` if the read hit the end of input without any bytes.
    pub eof: bool,
}

pub struct PromptResultView {
    pub value: Seq<u8>,
    pub eof: bool,
}

impl View for PromptResult {
    type V = PromptResultView;

    open spec fn view(&self) -> PromptResultView {
        PromptResultView { value: self.value@, eof: self.eof }
    }
}

/// A line without its newline, and without a carriage return before that.
pub open spec fn line_value(line: Seq<u8>) -> Seq<u8> {
    if line.len() > 0 && line.last() == 0x0a {
        let body = line.drop_last();
        if body.len() > 0 && body.last() == 0x0d {
            body.drop_last()
        } else {
            body
        }
    } else {
        line
    }
}

/// What a line amounts to that was read up to and with its newline.
pub open spec fn line_result(line: Seq<u8>) -> PromptResultView {
    PromptResultView { value: line_value(line), eof: line.len() == 0 }
}

/// The value of a line that was read up to and with its newline.
pub fn read_line(line: Vec<u8>) -> (r: PromptResult)
    ensures
        r@ == line_result(line@),
{
    let eof = line.len() == 0;
    let mut value = line;
    if value.len() > 0 && value[value.len() - 1] == 0x0a {
        let _ = value.pop();
        assert(value@ =~= line@.drop_last());
        if value.len() > 0 && value[value.len() - 1] == 0x0d {
            let _ = value.pop();
            assert(value@ =~= line@.drop_last().drop_last());
        }
    }
    PromptResult { value, eof }
}

/// A typed value or a failure, over what they say.
pub open spec fn typed_view(r: Result<PromptResult, Failure>) -> Result<
    PromptResultView,
    FailureView,
> {
    match r {
        Ok(p) => Ok(p@),
        Err(f) => Err(f@),
    }
}

/// The state of prompting for a value, named after the operation that is due.
pub enum Prompting {
    /// Read the attributes of the terminal.
    Query { prompt: String },
    /// Switch the echo of the terminal off.
    Hide { prompt: String },
    /// Print `text` and flush.
    Show { text: String, hidden: bool },
    /// Read a line, up to and with its newline.
    Read { hidden: bool },
    /// Set the attributes of the terminal back.
    Restore { result: Result<PromptResult, Failure> },
    /// The value, and whether a newline is to be printed.
    Done { result: Result<PromptResult, Failure>, newline: bool },
}

pub enum PromptingView {
    Query { prompt: Seq<char> },
    Hide { prompt: Seq<char> },
    Show { text: Seq<char>, hidden: bool },
    Read { hidden: bool },
    Restore { result: Result<PromptResultView, FailureView> },
    Done { result: Result<PromptResultView, FailureView>, newline: bool },
}

impl View for Prompting {
    type V = PromptingView;

    open spec fn view(&self) -> PromptingView {
        match *self {
            Prompting::Query { prompt } => PromptingView::Query { prompt: prompt@ },
            Prompting::Hide { prompt } => PromptingView::Hide { prompt: prompt@ },
            Prompting::Show { text, hidden } => PromptingView::Show { text: text@, hidden },
            Prompting::Read { hidden } => PromptingView::Read { hidden },
            Prompting::Restore { result } => PromptingView::Restore { result: typed_view(result) },
            Prompting::Done { result, newline } => PromptingView::Done {
                result: typed_view(result),
                newline,
            },
        }
    }
}

/// The outcome of an operation of prompting.
pub enum PromptEvent {
    /// Whether the attributes could be read: stdin is a terminal.
    Queried(bool),
    /// Whether the echo is off.
    Hidden(bool),
    Shown(Result<(), Failure>),
    Read(Result<Vec<u8>, Failure>),
    /// Whether the attributes are back.
    Restored(bool),
}

pub enum PromptEventView {
    Queried(bool),
    Hidden(bool),
    Shown(Result<(), FailureView>),
    Read(Result<Seq<u8>, FailureView>),
    Restored(bool),
}

impl View for PromptEvent {
    type V = PromptEventView;

    open spec fn view(&self) -> PromptEventView {
        match *self {
            PromptEvent::Queried(ok) => PromptEventView::Queried(ok),
            PromptEvent::Hidden(ok) => PromptEventView::Hidden(ok),
            PromptEvent::Shown(r) => PromptEventView::Shown(outcome_view(r)),
            PromptEvent::Read(r) => PromptEventView::Read(bytes_view(r)),
            PromptEvent::Restored(ok) => PromptEventView::Restored(ok),
        }
    }
}

/// A failure of no particular kind.
pub open spec fn other_failure(message: Seq<char>) -> FailureView {
    FailureView { kind: FailureKind::Other, message }
}

/// Reading is over, with `result`: a hidden prompt has yet to restore the echo.
pub open spec fn prompt_answered(
    hidden: bool,
    result: Result<PromptResultView, FailureView>,
) -> PromptingView {
    if hidden {
        PromptingView::Restore { result }
    } else {
        PromptingView::Done { result, newline: false }
    }
}

/// The state after `event`. Once the echo is off, every way to the end leads
/// through restoring it; a failure to do so is reported unless there is an
/// earlier one.
pub open spec fn prompt_next(s: PromptingView, event: PromptEventView) -> PromptingView {
    match (s, event) {
        (PromptingView::Query { prompt }, PromptEventView::Queried(ok)) => if ok {
            PromptingView::Hide { prompt }
        } else {
            PromptingView::Done {
                result: Err(other_failure("--noecho requires stdin to be a terminal"@)),
                newline: false,
            }
        },
        (PromptingView::Hide { prompt }, PromptEventView::Hidden(ok)) => if ok {
            PromptingView::Show { text: prompt + " (noecho): "@, hidden: true }
        } else {
            PromptingView::Done {
                result: Err(other_failure("tcsetattr failed"@)),
                newline: false,
            }
        },
        (PromptingView::Show { text, hidden }, PromptEventView::Shown(r)) => match r {
            Ok(_) => PromptingView::Read { hidden },
            Err(f) => prompt_answered(hidden, Err(f)),
        },
        (PromptingView::Read { hidden }, PromptEventView::Read(r)) => match r {
            Ok(line) => prompt_answered(hidden, Ok(line_result(line))),
            Err(f) => prompt_answered(hidden, Err(f)),
        },
        (PromptingView::Restore { result }, PromptEventView::Restored(ok)) => if !ok
            && result is Ok {
            PromptingView::Done {
                result: Err(other_failure("tcsetattr restore failed"@)),
                newline: false,
            }
        } else {
            PromptingView::Done { result, newline: true }
        },
        _ => s,
    }
}

/// Starts to prompt for one value. `prompt` is a non-secret label like `ns.VAR`.
/// If `noecho`, the terminal's echo is off for the duration of the read.
pub fn read_value(prompt: &str, noecho: bool) -> (r: Prompting)
    ensures
        r@ == if noecho {
            PromptingView::Query { prompt: prompt@ }
        } else {
            PromptingView::Show { text: prompt@ + ": "@, hidden: false }
        },
{
    if noecho {
        Prompting::Query { prompt: prompt.to_owned() }
    } else {
        let mut text = prompt.to_owned();
        text.append(": ");
        Prompting::Show { text, hidden: false }
    }
}

fn failed(message: &str) -> (r: Result<PromptResult, Failure>)
    ensures
        typed_view(r) == Err::<PromptResultView, FailureView>(other_failure(message@)),
{
    Err(Failure { kind: FailureKind::Other, message: message.to_owned() })
}

fn answered(hidden: bool, result: Result<PromptResult, Failure>) -> (r: Prompting)
    ensures
        r@ == prompt_answered(hidden, typed_view(result)),
{
    if hidden {
        Prompting::Restore { result }
    } else {
        Prompting::Done { result, newline: false }
    }
}

impl Prompting {
    /// The state after `event`.
    pub fn step(self, event: PromptEvent) -> (r: Prompting)
        ensures
            r@ == prompt_next(self@, event@),
    {
        match (self, event) {
            (Prompting::Query { prompt }, PromptEvent::Queried(ok)) => if ok {
                Prompting::Hide { prompt }
            } else {
                Prompting::Done {
                    result: failed("--noecho requires stdin to be a terminal"),
                    newline: false,
                }
            },
            (Prompting::Hide { prompt }, PromptEvent::Hidden(ok)) => if ok {
                let mut text = prompt;
                text.append(" (noecho): ");
                Prompting::Show { text, hidden: true }
            } else {
                Prompting::Done { result: failed("tcsetattr failed"), newline: false }
            },
            (Prompting::Show { text: _, hidden }, PromptEvent::Shown(r)) => match r {
                Ok(_) => Prompting::Read { hidden },
                Err(f) => answered(hidden, Err(f)),
            },
            (Prompting::Read { hidden }, PromptEvent::Read(r)) => match r {
                Ok(line) => answered(hidden, Ok(read_line(line))),
                Err(f) => answered(hidden, Err(f)),
            },
            (Prompting::Restore { result }, PromptEvent::Restored(ok)) => if !ok && result.is_ok() {
                Prompting::Done { result: failed("tcsetattr restore failed"), newline: false }
            } else {
                Prompting::Done { result, newline: true }
            },
            (s, _) => s,
        }
    }
}

// ---- laws --------------------------------------------------------------------

/// The state after a sequence of events.
pub open spec fn prompt_run(s: PromptingView, events: Seq<PromptEventView>) -> PromptingView
    decreases events.len(),
{
    if events.len() == 0 {
        s
    } else {
        prompt_next(prompt_run(s, events.drop_last()), events.last())
    }
}

/// How often the echo was switched off when that was due.
pub open spec fn times_hidden(s: PromptingView, events: Seq<PromptEventView>) -> nat
    decreases events.len(),
{
    if events.len() == 0 {
        0
    } else {
        let before = times_hidden(s, events.drop_last());
        match (prompt_run(s, events.drop_last()), events.last()) {
            (PromptingView::Hide { prompt }, PromptEventView::Hidden(ok)) => if ok {
                before + 1
            } else {
                before
            },
            _ => before,
        }
    }
}

/// How often setting the attributes back was due and was tried.
pub open spec fn times_restored(s: PromptingView, events: Seq<PromptEventView>) -> nat
    decreases events.len(),
{
    if events.len() == 0 {
        0
    } else {
        let before = times_restored(s, events.drop_last());
        match (prompt_run(s, events.drop_last()), events.last()) {
            (PromptingView::Restore { result }, PromptEventView::Restored(_)) => before + 1,
            _ => before,
        }
    }
}

/// Echo is always restored: when a hidden prompt has come to its end, every time
/// that the echo was switched off it was also set back, and the echo is off only
/// from then until the read is over.
pub proof fn echo_is_always_restored(prompt: Seq<char>, events: Seq<PromptEventView>)
    ensures
        ({
            let start = PromptingView::Query { prompt };
            let hidden = times_hidden(start, events);
            let restored = times_restored(start, events);
            match prompt_run(start, events) {
                PromptingView::Query { prompt: p } => hidden == 0 && restored == 0,
                PromptingView::Hide { prompt: p } => hidden == 0 && restored == 0,
                PromptingView::Show { text, hidden: h } => h && hidden == 1 && restored == 0,
                PromptingView::Read { hidden: h } => h && hidden == 1 && restored == 0,
                PromptingView::Restore { result } => hidden == 1 && restored == 0,
                PromptingView::Done { result, newline } => hidden == restored && hidden <= 1,
            }
        }),
    decreases events.len(),
{
    if events.len() > 0 {
        echo_is_always_restored(prompt, events.drop_last());
    }
}

/// A line that is typed for a value is read back as that value, unless the value
/// itself ends in a carriage return.
pub proof fn typed_lines_read_back(value: Seq<u8>)
    requires
        value.len() > 0 ==> value.last() != 0x0d,
    ensures
        line_result(value.push(0x0a)) == (PromptResultView { value, eof: false }),
        line_result(value.push(0x0d).push(0x0a)) == (PromptResultView { value, eof: false }),
{
    assert(value.push(0x0a).drop_last() =~= value);
    assert(value.push(0x0d).push(0x0a).drop_last() =~= value.push(0x0d));
    assert(value.push(0x0d).drop_last() =~= value);
}

/// A line is read whole: without its newline it is the value, but for a carriage
/// return right before that; a line without a newline is the value as it is; only
/// an empty one means that there was nothing to read.
pub proof fn lines_are_read_whole(body: Seq<u8>, line: Seq<u8>)
    ensures
        body.len() == 0 || body.last() != 0x0d ==> line_result(body.push(0x0a)).value == body,
        line_result(body.push(0x0d).push(0x0a)).value == body,
        line.len() == 0 || line.last() != 0x0a ==> line_result(line).value == line,
        line_result(line).eof <==> line.len() == 0,
{
    assert(body.push(0x0a).drop_last() =~= body);
    assert(body.push(0x0d).push(0x0a).drop_last() =~= body.push(0x0d));
    assert(body.push(0x0d).drop_last() =~= body);
}

/// A prompt shows its whole label, and what it gives is the line that was read; a
/// hidden one does the same behind switching the echo off and on again. A failure
/// to show the label or to read is its outcome, as it is.
pub proof fn prompts_give_the_line(prompt: Seq<char>, line: Seq<u8>, f: FailureView)
    ensures
        ({
            let query = PromptingView::Query { prompt };
            let hide = prompt_next(query, PromptEventView::Queried(true));
            let show = prompt_next(hide, PromptEventView::Hidden(true));
            let read = prompt_next(show, PromptEventView::Shown(Ok(())));
            let restore = prompt_next(read, PromptEventView::Read(Ok(line)));
            let failed = prompt_next(read, PromptEventView::Read(Err(f)));
            let closed = prompt_next(show, PromptEventView::Shown(Err(f)));
            &&& show matches PromptingView::Show { text, hidden } && hidden
                && prompt.is_prefix_of(text)
            &&& prompt_next(restore, PromptEventView::Restored(true)) == (PromptingView::Done {
                result: Ok(line_result(line)),
                newline: true,
            })
            &&& prompt_next(failed, PromptEventView::Restored(true)) == (PromptingView::Done {
                result: Err(f),
                newline: true,
            })
            &&& prompt_next(closed, PromptEventView::Restored(true)) == (PromptingView::Done {
                result: Err(f),
                newline: true,
            })
        }),
        ({
            let show = PromptingView::Show { text: prompt, hidden: false };
            let read = prompt_next(show, PromptEventView::Shown(Ok(())));
            &&& prompt_next(read, PromptEventView::Read(Ok(line))) == (PromptingView::Done {
                result: Ok(line_result(line)),
                newline: false,
            })
            &&& prompt_next(read, PromptEventView::Read(Err(f))) == (PromptingView::Done {
                result: Err(f),
                newline: false,
            })
            &&& prompt_next(show, PromptEventView::Shown(Err(f))) == (PromptingView::Done {
                result: Err(f),
                newline: false,
            })
        }),
{
    let text = prompt + " (noecho): "@;
    assert(text.subrange(0, prompt.len() as int) =~= prompt);
}

/// Why a value could not be read is told: no terminal, an echo that cannot be switched
/// off, one that cannot be switched on again; no two of these alike. An earlier failure
/// is told instead of the last one.
pub proof fn failed_prompts_say_why(prompt: Seq<char>, typed: PromptResultView, f: FailureView)
    ensures
        ({
            let query = PromptingView::Query { prompt };
            let hide = PromptingView::Hide { prompt };
            let no_terminal = prompt_next(query, PromptEventView::Queried(false));
            let no_hiding = prompt_next(hide, PromptEventView::Hidden(false));
            let no_showing = prompt_next(
                PromptingView::Restore { result: Ok(typed) },
                PromptEventView::Restored(false),
            );
            let earlier = prompt_next(
                PromptingView::Restore { result: Err(f) },
                PromptEventView::Restored(false),
            );
            &&& no_terminal != no_hiding
            &&& no_hiding != no_showing
            &&& no_terminal != no_showing
            &&& no_terminal matches PromptingView::Done { result: Err(e), newline } && !newline
                && "--noecho requires stdin"@.is_prefix_of(e.message)
            &&& no_hiding matches PromptingView::Done { result: Err(e), newline } && !newline
                && "tcsetattr"@.is_prefix_of(e.message)
            &&& no_showing matches PromptingView::Done { result: Err(e), newline } && !newline
                && "tcsetattr restore"@.is_prefix_of(e.message)
            &&& earlier == (PromptingView::Done { result: Err(f), newline: true })
        }),
{
    reveal_strlit("--noecho requires stdin to be a terminal");
    reveal_strlit("--noecho requires stdin");
    reveal_strlit("tcsetattr failed");
    reveal_strlit("tcsetattr");
    reveal_strlit("tcsetattr restore failed");
    reveal_strlit("tcsetattr restore");
    let a = "--noecho requires stdin to be a terminal"@;
    let b = "tcsetattr failed"@;
    let c = "tcsetattr restore failed"@;
    assert(a.subrange(0, 23) =~= "--noecho requires stdin"@);
    assert(b.subrange(0, 9) =~= "tcsetattr"@);
    assert(c.subrange(0, 17) =~= "tcsetattr restore"@);
    assert(a.len() == 40 && b.len() == 16 && c.len() == 24);
}

} // verus!
