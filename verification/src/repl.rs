//! The decisions of the interactive loop: meta commands, and when buffered
//! input is handed over for translation.
use vstd::prelude::*;

verus! {

/// The prompt shown before each line of input.
pub const REPL_PROMPT: &'static str = "( ";

/// What the loop does after a meta command was looked at.
#[derive(Clone, Copy, Debug, PartialEq, Eq, Structural)]
pub enum MetaFlow {
    /// The line was a meta command: nothing more to do with it.
    Ignore,
    /// The line is no meta command: treat it as input.
    Continue,
    /// Leave the loop.
    Break,
}

/// The state that meta commands change.
pub struct MetaHandler {
    /// In multiline mode input is buffered until an empty line.
    pub multiline_mode: bool,
}

/// Whether two strings hold the same characters.
pub fn str_equal(a: &str, b: &str) -> (r: bool)
    ensures
        r == (a@ == b@),
{
    let n = a.unicode_len();
    if n != b.unicode_len() {
        return false;
    }
    let mut k: usize = 0;
    while k < n
        invariant
            k <= n,
            n == a@.len(),
            n == b@.len(),
            forall|m: int| 0 <= m < k ==> a@[m] == b@[m],
        decreases n - k,
    {
        if a.get_char(k) != b.get_char(k) {
            return false;
        }
        k = k + 1;
    }
    assert(a@ =~= b@);
    true
}

/// The help text of the meta commands.
pub open spec fn help_text() -> Seq<char> {
    "Meta commands:\n,exit\texit repl\n,mline\ttoggle multiline mode\n,help\tthis help"@
}

/// The notice after toggling multiline mode to `mode`.
pub open spec fn multiline_notice(mode: bool) -> Seq<char> {
    "Multiline: "@ + if mode {
        "true"@
    } else {
        "false"@
    }
}

impl MetaHandler {
    /// A handler in multiline mode.
    pub fn new() -> (h: Self)
        ensures
            h.multiline_mode,
    {
        MetaHandler { multiline_mode: true }
    }

    /// Looks at a line: `,exit` leaves the loop, `,help` and `,mline` are
    /// meta commands (the latter toggles multiline mode), anything else is
    /// input.
    pub fn handle(&mut self, input: &str) -> (flow: MetaFlow)
        ensures
            input@ == ",exit"@ ==> flow == MetaFlow::Break && final(self).multiline_mode == old(
                self,
            ).multiline_mode,
            input@ == ",help"@ ==> flow == MetaFlow::Ignore && final(self).multiline_mode == old(
                self,
            ).multiline_mode,
            input@ == ",mline"@ ==> flow == MetaFlow::Ignore && final(self).multiline_mode
                == !old(self).multiline_mode,
            input@ != ",exit"@ && input@ != ",help"@ && input@ != ",mline"@ ==> flow
                == MetaFlow::Continue && final(self).multiline_mode == old(self).multiline_mode,
    {
        proof {
            reveal_strlit(",exit");
            reveal_strlit(",help");
            reveal_strlit(",mline");
            assert(",exit"@[1] != ",help"@[1]);
            assert(",exit"@.len() != ",mline"@.len());
            assert(",help"@.len() != ",mline"@.len());
        }
        if str_equal(input, ",exit") {
            MetaFlow::Break
        } else if str_equal(input, ",help") {
            MetaFlow::Ignore
        } else if str_equal(input, ",mline") {
            self.multiline_mode = !self.multiline_mode;
            MetaFlow::Ignore
        } else {
            MetaFlow::Continue
        }
    }
}

/// What the interactive loop does with one line of input.
#[derive(Debug)]
pub enum ReplAction {
    /// Leave the loop.
    Exit,
    /// Tell the user this notice.
    Notice(String),
    /// Translate this input.
    Process(String),
    /// Nothing to do until more input comes.
    Wait,
}

/// The model of what the loop does with one line.
pub enum SpecAction {
    Exit,
    Notice(Seq<char>),
    Process(Seq<char>),
    Wait,
}

impl View for ReplAction {
    type V = SpecAction;

    open spec fn view(&self) -> SpecAction {
        match self {
            ReplAction::Exit => SpecAction::Exit,
            ReplAction::Notice(s) => SpecAction::Notice(s@),
            ReplAction::Process(s) => SpecAction::Process(s@),
            ReplAction::Wait => SpecAction::Wait,
        }
    }
}

/// The state of an interactive session: the meta handler and the input
/// buffered so far.
pub struct ReplSession {
    pub handler: MetaHandler,
    pub buffer: String,
}

/// The state of a session as values: multiline mode and the buffer.
pub struct SessionModel {
    pub multiline: bool,
    pub buffer: Seq<char>,
}

/// One step of the loop: the next state and the action for `line`.
pub open spec fn spec_step(state: SessionModel, line: Seq<char>) -> (SessionModel, SpecAction) {
    if line == ",exit"@ {
        (state, SpecAction::Exit)
    } else if line == ",help"@ {
        (state, SpecAction::Notice(help_text()))
    } else if line == ",mline"@ {
        let mode = !state.multiline;
        (SessionModel { multiline: mode, buffer: state.buffer }, SpecAction::Notice(multiline_notice(mode)))
    } else if state.multiline {
        if line.len() == 0 {
            (SessionModel { multiline: true, buffer: Seq::empty() }, SpecAction::Process(state.buffer))
        } else {
            (SessionModel { multiline: true, buffer: state.buffer + line + "\n"@ }, SpecAction::Wait)
        }
    } else {
        (state, SpecAction::Process(line))
    }
}

impl ReplSession {
    /// The state as values.
    pub open spec fn model(&self) -> SessionModel {
        SessionModel { multiline: self.handler.multiline_mode, buffer: self.buffer@ }
    }

    /// A session in multiline mode with an empty buffer.
    pub fn new() -> (s: Self)
        ensures
            s.model() == (SessionModel { multiline: true, buffer: Seq::empty() }),
    {
        ReplSession { handler: MetaHandler::new(), buffer: String::new() }
    }

    /// Takes one line of input and says what to do with it.
    pub fn step(&mut self, line: &str) -> (action: ReplAction)
        ensures
            (final(self).model(), action@) == spec_step(old(self).model(), line@),
    {
        proof {
            reveal_strlit(",exit");
            reveal_strlit(",help");
            reveal_strlit(",mline");
            assert(",exit"@[1] != ",help"@[1]);
            assert(",exit"@.len() != ",mline"@.len());
            assert(",help"@.len() != ",mline"@.len());
        }
        match self.handler.handle(line) {
            MetaFlow::Break => ReplAction::Exit,
            MetaFlow::Ignore => {
                if str_equal(line, ",help") {
                    ReplAction::Notice(
                        String::from_str(
                            "Meta commands:\n,exit\texit repl\n,mline\ttoggle multiline mode\n,help\tthis help",
                        ),
                    )
                } else {
                    let mut notice = String::from_str("Multiline: ");
                    if self.handler.multiline_mode {
                        notice.append("true");
                    } else {
                        notice.append("false");
                    }
                    ReplAction::Notice(notice)
                }
            },
            MetaFlow::Continue => {
                if self.handler.multiline_mode {
                    if line.is_empty() {
                        let mut text = String::new();
                        std::mem::swap(&mut text, &mut self.buffer);
                        ReplAction::Process(text)
                    } else {
                        self.buffer.append(line);
                        self.buffer.append("\n");
                        ReplAction::Wait
                    }
                } else {
                    ReplAction::Process(String::from_str(line))
                }
            },
        }
    }
}

} // verus!

verus! {

/// `,mline` twice leaves the session as it was.
pub proof fn lemma_multiline_toggle_twice(state: SessionModel)
    ensures
        spec_step(spec_step(state, ",mline"@).0, ",mline"@).0 == state,
{
    reveal_strlit(",exit");
    reveal_strlit(",help");
    reveal_strlit(",mline");
    assert(",exit"@.len() != ",mline"@.len());
    assert(",help"@.len() != ",mline"@.len());
}

/// A line that is no meta command.
pub open spec fn is_input_line(line: Seq<char>) -> bool {
    line != ",exit"@ && line != ",help"@ && line != ",mline"@
}

/// The lines, each followed by a line break, one after the other.
pub open spec fn joined_lines(lines: Seq<Seq<char>>) -> Seq<char>
    decreases lines.len(),
{
    if lines.len() == 0 {
        Seq::empty()
    } else {
        joined_lines(lines.drop_last()) + lines.last() + "\n"@
    }
}

/// The session after taking `lines` one by one.
pub open spec fn spec_run(state: SessionModel, lines: Seq<Seq<char>>) -> SessionModel
    decreases lines.len(),
{
    if lines.len() == 0 {
        state
    } else {
        spec_step(spec_run(state, lines.drop_last()), lines.last()).0
    }
}

/// In multiline mode, nonempty input lines are buffered, and the empty line
/// that follows hands all of them over together, each with its line break,
/// and empties the buffer.
pub proof fn lemma_multiline_buffering(state: SessionModel, lines: Seq<Seq<char>>)
    requires
        state.multiline,
        forall|k: int| 0 <= k < lines.len() ==> #[trigger] lines[k].len() > 0 && is_input_line(lines[k]),
    ensures
        spec_run(state, lines) == (SessionModel { multiline: true, buffer: state.buffer + joined_lines(lines) }),
        spec_step(spec_run(state, lines), Seq::empty()) == (
            SessionModel { multiline: true, buffer: Seq::empty() },
            SpecAction::Process(state.buffer + joined_lines(lines)),
        ),
    decreases lines.len(),
{
    reveal_strlit(",exit");
    reveal_strlit(",help");
    reveal_strlit(",mline");
    if lines.len() > 0 {
        let init = lines.drop_last();
        assert forall|k: int| 0 <= k < init.len() implies #[trigger] init[k].len() > 0 && is_input_line(init[k]) by {
            assert(init[k] == lines[k]);
        }
        lemma_multiline_buffering(state, init);
        let last = lines.last();
        assert(lines[lines.len() - 1] == last);
        assert(state.buffer + joined_lines(init) + last + "\n"@ =~= state.buffer + joined_lines(lines));
    } else {
        assert(state.buffer + joined_lines(lines) =~= state.buffer);
    }
    assert(Seq::<char>::empty() != ",exit"@);
    assert(Seq::<char>::empty() != ",help"@);
    assert(Seq::<char>::empty() != ",mline"@);
}


/// Whether multiline mode is on after the first `k` of `lines`.
pub open spec fn mode_after(state: SessionModel, lines: Seq<Seq<char>>, k: int) -> bool {
    spec_run(state, lines.take(k)).multiline
}

/// Line `k` hands the buffer over: an empty line read in multiline mode.
pub open spec fn is_flush(state: SessionModel, lines: Seq<Seq<char>>, k: int) -> bool {
    lines[k].len() == 0 && mode_after(state, lines, k)
}

/// Line `k` is buffered: a nonempty line that is no meta command, read in
/// multiline mode.
pub open spec fn is_kept(state: SessionModel, lines: Seq<Seq<char>>, k: int) -> bool {
    lines[k].len() > 0 && is_input_line(lines[k]) && mode_after(state, lines, k)
}

/// The last line before `n` that handed the buffer over, or -1.
pub open spec fn last_flush(state: SessionModel, lines: Seq<Seq<char>>, n: int) -> int
    decreases n,
{
    if n <= 0 {
        -1
    } else if is_flush(state, lines, n - 1) {
        n - 1
    } else {
        last_flush(state, lines, n - 1)
    }
}

/// The buffered lines among `from .. n`, each followed by a line break.
pub open spec fn kept_text(state: SessionModel, lines: Seq<Seq<char>>, from: int, n: int) -> Seq<
    char,
>
    decreases n - from,
{
    if n <= from {
        Seq::empty()
    } else if is_kept(state, lines, n - 1) {
        kept_text(state, lines, from, n - 1) + lines[n - 1] + "\n"@
    } else {
        kept_text(state, lines, from, n - 1)
    }
}

/// What the buffer holds after the first `n` lines: the lines buffered since
/// the last line that handed the buffer over (after the buffer the session
/// started with, when no line did).
pub open spec fn pending(state: SessionModel, lines: Seq<Seq<char>>, n: int) -> Seq<char> {
    let f = last_flush(state, lines, n);
    (if f < 0 {
        state.buffer
    } else {
        Seq::empty()
    }) + kept_text(state, lines, f + 1, n)
}

proof fn lemma_last_flush_bound(state: SessionModel, lines: Seq<Seq<char>>, n: int)
    requires
        n >= 0,
    ensures
        -1 <= last_flush(state, lines, n) < n || (n == 0 && last_flush(state, lines, n) == -1),
    decreases n,
{
    if n > 0 {
        lemma_last_flush_bound(state, lines, n - 1);
    }
}

/// Whatever meta commands come in between, the buffer holds exactly the
/// nonempty input lines read in multiline mode since the last empty line read
/// in multiline mode, each with its line break; and such an empty line hands
/// over exactly that text (even when it is empty) and empties the buffer.
pub proof fn lemma_buffer_since_last_flush(state: SessionModel, lines: Seq<Seq<char>>, n: int)
    requires
        0 <= n <= lines.len(),
    ensures
        spec_run(state, lines.take(n)).buffer == pending(state, lines, n),
        n < lines.len() && is_flush(state, lines, n) ==> spec_step(
            spec_run(state, lines.take(n)),
            lines[n],
        ) == (
            SessionModel { multiline: true, buffer: Seq::empty() },
            SpecAction::Process(pending(state, lines, n)),
        ),
    decreases n,
{
    reveal_strlit(",exit");
    reveal_strlit(",help");
    reveal_strlit(",mline");
    assert(",exit"@.len() == 5 && ",help"@.len() == 5 && ",mline"@.len() == 6);
    assert(Seq::<char>::empty() != ",exit"@);
    assert(Seq::<char>::empty() != ",help"@);
    assert(Seq::<char>::empty() != ",mline"@);
    if n == 0 {
        assert(lines.take(0) =~= Seq::<Seq<char>>::empty());
        assert(state.buffer + Seq::<char>::empty() =~= state.buffer);
    } else {
        lemma_buffer_since_last_flush(state, lines, n - 1);
        lemma_last_flush_bound(state, lines, n - 1);
        let prev = spec_run(state, lines.take(n - 1));
        let line = lines[n - 1];
        assert(lines.take(n).drop_last() =~= lines.take(n - 1));
        assert(lines.take(n).last() == line);
        assert(spec_run(state, lines.take(n)) == spec_step(prev, line).0);
        let f = last_flush(state, lines, n - 1);
        let head = if f < 0 {
            state.buffer
        } else {
            Seq::<char>::empty()
        };
        if is_flush(state, lines, n - 1) {
            assert(kept_text(state, lines, n, n) =~= Seq::<char>::empty());
            assert(Seq::<char>::empty() + Seq::<char>::empty() =~= Seq::<char>::empty());
        } else if is_kept(state, lines, n - 1) {
            assert(last_flush(state, lines, n) == f);
            assert(kept_text(state, lines, f + 1, n) == kept_text(state, lines, f + 1, n - 1)
                + line + "\n"@);
            assert(head + kept_text(state, lines, f + 1, n - 1) + line + "\n"@ =~= head + (
            kept_text(state, lines, f + 1, n - 1) + line + "\n"@));
        } else {
            assert(last_flush(state, lines, n) == f);
            assert(kept_text(state, lines, f + 1, n) == kept_text(state, lines, f + 1, n - 1));
            assert(spec_step(prev, line).0.buffer == prev.buffer);
        }
    }
}

} // verus!
