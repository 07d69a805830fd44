use vstd::prelude::*;
use vstd::string::StringSliceAdditionalSpecFns;
use crate::keyboard::Key;
use crate::vga_buffer::{Screen, Writer};

verus! {

/// Capacity of the line buffer; a line holds at most one byte less.
pub const LINE_BUF_LEN: usize = 128;

/// Number of lines the history ring keeps.
pub const HISTORY_SIZE: usize = 10;

/// At most this many whitespace-separated tokens of a line are looked at.
pub const MAX_TOKENS: usize = 8;

/// Column width that `help` pads command names to.
pub const HELP_NAME_WIDTH: usize = 12;

pub const PROMPT: &'static str = "> ";

pub const BUFFER_FULL_NOTICE: &'static str = "\n[buffer full]\n";

pub const REBOOT_NOTICE: &'static str = "Rebooting system...\n";

pub const HELP_HEADER: &'static str = "Available commands:\n";

pub const HISTORY_HEADER: &'static str = "Command history:\n";

pub const NO_HISTORY: &'static str = "No command history\n";

pub const UNKNOWN_PREFIX: &'static str = "Unknown command: ";

pub const UNKNOWN_SUFFIX: &'static str = ". Type 'help' for available commands.\n";

// ---------------------------------------------------------------------------
// Commands
// ---------------------------------------------------------------------------

/// The entries of the command table, in table order.
#[derive(Clone, Copy, PartialEq, Eq, Structural, Debug)]
pub enum Command {
    Help,
    Echo,
    Clear,
    Reboot,
    History,
}

/// Number of entries in the command table.
pub const COMMAND_COUNT: usize = 5;

impl Command {
    pub open spec fn spec_at(i: int) -> Command {
        if i == 0 {
            Command::Help
        } else if i == 1 {
            Command::Echo
        } else if i == 2 {
            Command::Clear
        } else if i == 3 {
            Command::Reboot
        } else {
            Command::History
        }
    }

    pub open spec fn spec_name(self) -> Seq<u8> {
        match self {
            Command::Help => "help".spec_bytes(),
            Command::Echo => "echo".spec_bytes(),
            Command::Clear => "clear".spec_bytes(),
            Command::Reboot => "reboot".spec_bytes(),
            Command::History => "history".spec_bytes(),
        }
    }

    pub open spec fn spec_help(self) -> Seq<u8> {
        match self {
            Command::Help => "Display this help message".spec_bytes(),
            Command::Echo => "Echo arguments to the screen".spec_bytes(),
            Command::Clear => "Clear the screen".spec_bytes(),
            Command::Reboot => "Reboot the system".spec_bytes(),
            Command::History => "Show command history".spec_bytes(),
        }
    }

    /// The table entry at position `i`.
    pub fn at(i: usize) -> (c: Command)
        requires
            i < COMMAND_COUNT,
        ensures
            c == Command::spec_at(i as int),
    {
        if i == 0 {
            Command::Help
        } else if i == 1 {
            Command::Echo
        } else if i == 2 {
            Command::Clear
        } else if i == 3 {
            Command::Reboot
        } else {
            Command::History
        }
    }

    pub fn name(self) -> (r: &'static str)
        ensures
            r.spec_bytes() == self.spec_name(),
    {
        match self {
            Command::Help => "help",
            Command::Echo => "echo",
            Command::Clear => "clear",
            Command::Reboot => "reboot",
            Command::History => "history",
        }
    }

    pub fn help(self) -> (r: &'static str)
        ensures
            r.spec_bytes() == self.spec_help(),
    {
        match self {
            Command::Help => "Display this help message",
            Command::Echo => "Echo arguments to the screen",
            Command::Clear => "Clear the screen",
            Command::Reboot => "Reboot the system",
            Command::History => "Show command history",
        }
    }
}

/// The first table entry named exactly `name`, searching from position `i`.
pub open spec fn spec_find_from(name: Seq<u8>, i: int) -> Option<Command>
    decreases COMMAND_COUNT - i,
{
    if i >= COMMAND_COUNT {
        None
    } else if Command::spec_at(i).spec_name() == name {
        Some(Command::spec_at(i))
    } else {
        spec_find_from(name, i + 1)
    }
}

/// The table entry named exactly `name` (case-sensitive), if any.
pub open spec fn spec_find_command(name: Seq<u8>) -> Option<Command> {
    spec_find_from(name, 0)
}

fn bytes_equal(a: &[u8], b: &[u8]) -> (r: bool)
    ensures
        r == (a@ == b@),
{
    if a.len() != b.len() {
        return false;
    }
    let mut i: usize = 0;
    while i < a.len()
        invariant
            a@.len() == b@.len(),
            i <= a@.len(),
            forall|j: int| 0 <= j < i ==> a@[j] == b@[j],
        decreases a@.len() - i,
    {
        if a[i] != b[i] {
            return false;
        }
        i = i + 1;
    }
    assert(a@ =~= b@);
    true
}

/// Looks `name` up in the command table.
pub fn find_command(name: &[u8]) -> (r: Option<Command>)
    ensures
        r == spec_find_command(name@),
{
    let mut i: usize = 0;
    while i < COMMAND_COUNT
        invariant
            i <= COMMAND_COUNT,
            spec_find_command(name@) == spec_find_from(name@, i as int),
        decreases COMMAND_COUNT - i,
    {
        let cmd = Command::at(i);
        if bytes_equal(cmd.name().as_bytes(), name) {
            return Some(cmd);
        }
        i = i + 1;
    }
    None
}

// ---------------------------------------------------------------------------
// Tokens
// ---------------------------------------------------------------------------

pub open spec fn is_blank(b: u8) -> bool {
    b == 0x20 || b == 0x09
}

/// Start and end of every maximal run of non-blank bytes of `s`, in order.
pub open spec fn token_spans(s: Seq<u8>) -> Seq<(usize, usize)>
    decreases s.len(),
{
    if s.len() == 0 {
        Seq::empty()
    } else {
        let prev = token_spans(s.drop_last());
        let n = s.len() as int;
        if is_blank(s.last()) {
            prev
        } else if n >= 2 && !is_blank(s[n - 2]) {
            prev.update(prev.len() - 1, (prev.last().0, n as usize))
        } else {
            prev.push(((n - 1) as usize, n as usize))
        }
    }
}

/// The whitespace-separated tokens of `s`, at most `MAX_TOKENS` of them.
pub open spec fn tokens(s: Seq<u8>) -> Seq<Seq<u8>> {
    let spans = token_spans(s);
    let n = if spans.len() < MAX_TOKENS { spans.len() } else { MAX_TOKENS as nat };
    Seq::new(n, |i: int| s.subrange(spans[i].0 as int, spans[i].1 as int))
}

proof fn lemma_token_spans_bounds(s: Seq<u8>)
    requires
        s.len() <= usize::MAX,
    ensures
        token_spans(s).len() <= s.len(),
        forall|i: int| 0 <= i < token_spans(s).len() ==>
            0 <= (#[trigger] token_spans(s)[i]).0 < token_spans(s)[i].1 <= s.len(),
        s.len() > 0 && !is_blank(s.last()) ==> token_spans(s).len() > 0 && token_spans(s).last().1 == s.len(),
    decreases s.len(),
{
    if s.len() > 0 {
        let prev = s.drop_last();
        lemma_token_spans_bounds(prev);
        let n = s.len() as int;
        if !is_blank(s.last()) && n >= 2 && !is_blank(s[n - 2]) {
            assert(prev.last() == s[n - 2]);
        }
    }
}

/// Splits `s` on spaces and tabs; returns the start and end of each of its
/// first `MAX_TOKENS` tokens.
pub fn split_whitespace(s: &[u8]) -> (r: Vec<(usize, usize)>)
    ensures
        r@.len() == tokens(s@).len(),
        forall|i: int| 0 <= i < r@.len() ==> #[trigger] r@[i] == token_spans(s@)[i],
        forall|i: int| 0 <= i < r@.len() ==> (#[trigger] r@[i]).0 <= r@[i].1 <= s@.len()
            && s@.subrange(r@[i].0 as int, r@[i].1 as int) == tokens(s@)[i],
{
    let mut spans: Vec<(usize, usize)> = Vec::new();
    let mut i: usize = 0;
    while i < s.len()
        invariant
            i <= s@.len(),
            spans@ == token_spans(s@.take(i as int)),
        decreases s@.len() - i,
    {
        let b = s[i];
        proof {
            assert(s@.take(i + 1).drop_last() =~= s@.take(i as int));
            lemma_token_spans_bounds(s@.take(i as int));
        }
        if b == 0x20 || b == 0x09 {
        } else if i >= 1 && s[i - 1] != 0x20 && s[i - 1] != 0x09 {
            let last = spans.len() - 1;
            let start = spans[last].0;
            spans.set(last, (start, i + 1));
        } else {
            spans.push((i, i + 1));
        }
        i = i + 1;
    }
    proof {
        assert(s@.take(i as int) =~= s@);
        lemma_token_spans_bounds(s@);
    }
    if spans.len() > MAX_TOKENS {
        spans.truncate(MAX_TOKENS);
    }
    spans
}

fn copy_range(s: &[u8], start: usize, end: usize) -> (r: Vec<u8>)
    requires
        start <= end <= s@.len(),
    ensures
        r@ == s@.subrange(start as int, end as int),
{
    let mut r: Vec<u8> = Vec::new();
    let mut i: usize = start;
    while i < end
        invariant
            start <= i <= end,
            end <= s@.len(),
            r@ == s@.subrange(start as int, i as int),
        decreases end - i,
    {
        r.push(s[i]);
        i = i + 1;
        assert(r@ =~= s@.subrange(start as int, i as int));
    }
    r
}

// ---------------------------------------------------------------------------
// Output text
// ---------------------------------------------------------------------------

/// `args` joined by single spaces.
pub open spec fn join_words(args: Seq<Seq<u8>>) -> Seq<u8>
    decreases args.len(),
{
    if args.len() == 0 {
        Seq::empty()
    } else if args.len() == 1 {
        args[0]
    } else {
        join_words(args.drop_last()) + seq![0x20u8] + args.last()
    }
}

pub open spec fn spaces(n: nat) -> Seq<u8> {
    Seq::new(n, |i: int| 0x20u8)
}

/// `name` padded with spaces to `HELP_NAME_WIDTH` columns.
pub open spec fn pad_name(name: Seq<u8>) -> Seq<u8> {
    if name.len() < HELP_NAME_WIDTH {
        name + spaces((HELP_NAME_WIDTH - name.len()) as nat)
    } else {
        name
    }
}

/// The help header and the help lines of the first `n` table entries.
pub open spec fn help_lines(n: int) -> Seq<u8>
    decreases n,
{
    if n <= 0 {
        HELP_HEADER.spec_bytes()
    } else {
        let c = Command::spec_at(n - 1);
        help_lines(n - 1) + "  ".spec_bytes() + pad_name(c.spec_name()) + " - ".spec_bytes()
            + c.spec_help() + seq![0x0au8]
    }
}

/// Each of `entries` numbered from 1, one per line, after the header.
pub open spec fn history_lines(entries: Seq<Seq<u8>>, n: int) -> Seq<u8>
    decreases n,
{
    if n <= 0 {
        HISTORY_HEADER.spec_bytes()
    } else {
        history_lines(entries, n - 1) + "  ".spec_bytes() + decimal(n as nat) + seq![0x20u8]
            + entries[n - 1] + seq![0x0au8]
    }
}

pub open spec fn help_text() -> Seq<u8> {
    help_lines(COMMAND_COUNT as int)
}

/// Decimal digits of `n`.
pub open spec fn decimal(n: nat) -> Seq<u8>
    decreases n,
{
    if n < 10 {
        seq![(0x30 + n) as u8]
    } else {
        decimal(n / 10).push((0x30 + n % 10) as u8)
    }
}

pub open spec fn unknown_message(name: Seq<u8>) -> Seq<u8> {
    UNKNOWN_PREFIX.spec_bytes() + name + UNKNOWN_SUFFIX.spec_bytes()
}

/// A character that the display shows as itself (printable ASCII).
pub open spec fn printable(c: char) -> bool {
    0x20 <= c as u32 <= 0x7e
}

/// The byte the line buffer stores for a printable character.
pub open spec fn char_byte(c: char) -> u8 {
    c as u32 as u8
}

fn append_bytes(out: &mut Vec<u8>, s: &[u8])
    ensures
        final(out)@ == old(out)@ + s@,
{
    let ghost start = out@;
    let mut i: usize = 0;
    while i < s.len()
        invariant
            i <= s@.len(),
            out@ == start + s@.take(i as int),
        decreases s@.len() - i,
    {
        out.push(s[i]);
        i = i + 1;
        assert(out@ =~= start + s@.take(i as int));
    }
    assert(s@.take(i as int) =~= s@);
}

fn append_str(out: &mut Vec<u8>, s: &str)
    ensures
        final(out)@ == old(out)@ + s.spec_bytes(),
{
    append_bytes(out, s.as_bytes());
}

fn append_decimal(out: &mut Vec<u8>, n: usize)
    ensures
        final(out)@ == old(out)@ + decimal(n as nat),
    decreases n,
{
    if n < 10 {
        out.push((0x30 + n) as u8);
        assert(out@ =~= old(out)@ + decimal(n as nat));
    } else {
        append_decimal(out, n / 10);
        out.push((0x30 + n % 10) as u8);
        assert(out@ =~= old(out)@ + decimal(n as nat));
    }
}

fn append_padded(out: &mut Vec<u8>, name: &[u8])
    ensures
        final(out)@ == old(out)@ + pad_name(name@),
{
    append_bytes(out, name);
    if name.len() < HELP_NAME_WIDTH {
        let ghost after_name = out@;
        let mut pad: usize = name.len();
        while pad < HELP_NAME_WIDTH
            invariant
                name@.len() <= pad <= HELP_NAME_WIDTH,
                out@ == after_name + spaces((pad - name@.len()) as nat),
            decreases HELP_NAME_WIDTH - pad,
        {
            out.push(0x20u8);
            pad = pad + 1;
            assert(out@ =~= after_name + spaces((pad - name@.len()) as nat));
        }
        assert(out@ =~= old(out)@ + pad_name(name@));
    }
}

fn append_help_line(out: &mut Vec<u8>, cmd: Command)
    ensures
        final(out)@ == old(out)@ + "  ".spec_bytes() + pad_name(cmd.spec_name()) + " - ".spec_bytes()
            + cmd.spec_help() + seq![0x0au8],
{
    append_str(out, "  ");
    append_padded(out, cmd.name().as_bytes());
    append_str(out, " - ");
    append_str(out, cmd.help());
    out.push(0x0au8);
    assert(out@ =~= old(out)@ + "  ".spec_bytes() + pad_name(cmd.spec_name()) + " - ".spec_bytes()
        + cmd.spec_help() + seq![0x0au8]);
}

fn help_output() -> (r: Vec<u8>)
    ensures
        r@ == help_text(),
{
    let mut out: Vec<u8> = Vec::new();
    append_str(&mut out, HELP_HEADER);
    assert(out@ =~= help_lines(0));
    let mut i: usize = 0;
    while i < COMMAND_COUNT
        invariant
            i <= COMMAND_COUNT,
            out@ == help_lines(i as int),
        decreases COMMAND_COUNT - i,
    {
        append_help_line(&mut out, Command::at(i));
        i = i + 1;
    }
    out
}

// ---------------------------------------------------------------------------
// Shell state and its transitions
// ---------------------------------------------------------------------------

/// What the caller must do after a key has been handled.
#[derive(Clone, Copy, PartialEq, Eq, Structural, Debug)]
pub enum Action {
    /// Keep reading keys.
    Continue,
    /// Reset the machine; nothing more is read.
    Reboot,
}

/// Abstract state of the shell: the line being typed, the slots of the
/// history ring, the slot written next, the number of valid entries, and
/// the slot currently recalled into the line, if any.
pub struct ShellState {
    pub line: Seq<u8>,
    pub slots: Seq<Seq<u8>>,
    pub index: int,
    pub count: int,
    pub browse: Option<int>,
}

impl ShellState {
    pub open spec fn wf(self) -> bool {
        &&& self.line.len() < LINE_BUF_LEN
        &&& self.slots.len() == HISTORY_SIZE
        &&& 0 <= self.index < HISTORY_SIZE
        &&& 0 <= self.count <= HISTORY_SIZE
        &&& self.count < HISTORY_SIZE ==> self.index == self.count
        &&& forall|i: int| 0 <= i < HISTORY_SIZE ==> (#[trigger] self.slots[i]).len() < LINE_BUF_LEN
        &&& self.browse matches Some(b) ==> 0 <= b < self.count
    }

    /// State of a freshly started shell.
    pub open spec fn initial() -> ShellState {
        ShellState {
            line: Seq::empty(),
            slots: Seq::new(HISTORY_SIZE as nat, |i: int| Seq::<u8>::empty()),
            index: 0,
            count: 0,
            browse: None,
        }
    }

    /// Slot of the oldest entry.
    pub open spec fn oldest(self) -> int {
        if self.count < HISTORY_SIZE {
            0
        } else {
            self.index
        }
    }

    /// Slot of the newest entry.
    pub open spec fn newest(self) -> int {
        (self.index + HISTORY_SIZE - 1) % (HISTORY_SIZE as int)
    }

    /// The saved lines, oldest first.
    pub open spec fn history(self) -> Seq<Seq<u8>> {
        Seq::new(
            self.count as nat,
            |i: int| self.slots[(self.oldest() + i) % (HISTORY_SIZE as int)],
        )
    }

    /// Position in `history()` of the slot `slot`.
    pub open spec fn position(self, slot: int) -> int {
        (slot - self.oldest() + HISTORY_SIZE) % (HISTORY_SIZE as int)
    }

    /// The ring after saving `l` over the oldest slot or a free one.
    pub open spec fn add_history(self, l: Seq<u8>) -> ShellState {
        ShellState {
            slots: self.slots.update(self.index, l),
            index: (self.index + 1) % (HISTORY_SIZE as int),
            count: if self.count < HISTORY_SIZE { self.count + 1 } else { self.count },
            ..self
        }
    }
}

/// Typing a printable character: it is appended and echoed while room
/// remains; on a full buffer the line is discarded with a notice and a new
/// prompt.
pub open spec fn push_char_step(st: ShellState, scr: Screen, c: char) -> (ShellState, Screen) {
    if st.line.len() < LINE_BUF_LEN - 1 {
        (ShellState { line: st.line.push(char_byte(c)), browse: None, ..st }, scr.put(char_byte(c)))
    } else {
        (
            ShellState { line: Seq::empty(), browse: None, ..st },
            scr.put_str(BUFFER_FULL_NOTICE.spec_bytes()).put_str(PROMPT.spec_bytes()),
        )
    }
}

/// Backspace or delete.
pub open spec fn backspace_step(st: ShellState, scr: Screen) -> (ShellState, Screen) {
    if st.line.len() > 0 {
        (ShellState { line: st.line.drop_last(), browse: None, ..st }, scr.backspace())
    } else {
        (st, scr)
    }
}

/// Replacing the line, on screen too, by the entry in slot `slot`.
pub open spec fn load_step(st: ShellState, scr: Screen, slot: int) -> (ShellState, Screen) {
    (
        ShellState { line: st.slots[slot], ..st },
        scr.backspaces(st.line.len()).put_str(st.slots[slot]),
    )
}

/// Recalling slot `slot`: it is loaded and becomes the browse position.
pub open spec fn recall_step(st: ShellState, scr: Screen, slot: int) -> (ShellState, Screen) {
    (ShellState { browse: Some(slot), ..load_step(st, scr, slot).0 }, load_step(st, scr, slot).1)
}

/// Leaving recall with an empty line.
pub open spec fn clear_line_step(st: ShellState, scr: Screen) -> (ShellState, Screen) {
    (ShellState { line: Seq::empty(), browse: None, ..st }, scr.backspaces(st.line.len()))
}

/// Arrow-up: one entry older; the first press takes the newest entry.
pub open spec fn prev_step(st: ShellState, scr: Screen) -> (ShellState, Screen) {
    if st.count == 0 {
        (st, scr)
    } else {
        match st.browse {
            None => recall_step(st, scr, st.newest()),
            Some(b) => if b == st.oldest() {
                (st, scr)
            } else {
                recall_step(st, scr, (b + HISTORY_SIZE - 1) % (HISTORY_SIZE as int))
            },
        }
    }
}

/// Arrow-down: one entry newer; past the newest entry the line is emptied.
pub open spec fn next_step(st: ShellState, scr: Screen) -> (ShellState, Screen) {
    match st.browse {
        None => (st, scr),
        Some(b) => if b == st.newest() {
            clear_line_step(st, scr)
        } else {
            recall_step(st, scr, (b + 1) % (HISTORY_SIZE as int))
        },
    }
}

/// Output of the `history` command.
pub open spec fn history_text(st: ShellState) -> Seq<u8> {
    if st.count == 0 {
        NO_HISTORY.spec_bytes()
    } else {
        history_lines(st.history(), st.count)
    }
}

/// Effect of running the command line `line` with the shell in `st`.
pub open spec fn command_step(st: ShellState, scr: Screen, line: Seq<u8>) -> (Screen, Action) {
    let toks = tokens(line);
    if toks.len() == 0 {
        (scr, Action::Continue)
    } else {
        match spec_find_command(toks[0]) {
            Some(Command::Help) => (scr.put_str(help_text()), Action::Continue),
            Some(Command::Echo) => (
                scr.put_str(join_words(toks.drop_first()) + seq![0x0au8]),
                Action::Continue,
            ),
            Some(Command::Clear) => (scr.cleared(), Action::Continue),
            Some(Command::Reboot) => (scr.put_str(REBOOT_NOTICE.spec_bytes()), Action::Reboot),
            Some(Command::History) => (scr.put_str(history_text(st)), Action::Continue),
            None => (scr.put_str(unknown_message(toks[0])), Action::Continue),
        }
    }
}

/// The command line that Enter hands to dispatch, if any: the typed line
/// when it is non-empty.
pub open spec fn submitted(st: ShellState) -> Option<Seq<u8>> {
    if st.line.len() > 0 {
        Some(st.line)
    } else {
        None
    }
}

/// Enter: the line is taken and cleared, saved and run when there is one,
/// and a new prompt follows unless the command resets the machine.
pub open spec fn enter_step(st: ShellState, scr: Screen) -> (ShellState, Screen, Action) {
    let st1 = ShellState { line: Seq::empty(), browse: None, ..st };
    let scr1 = scr.put(0x0a);
    match submitted(st) {
        Some(cmd) => {
            let st2 = st1.add_history(cmd);
            let (scr2, act) = command_step(st2, scr1, cmd);
            if act == Action::Reboot {
                (st2, scr2, act)
            } else {
                (st2, scr2.put_str(PROMPT.spec_bytes()), act)
            }
        },
        None => (st1, scr1.put_str(PROMPT.spec_bytes()), Action::Continue),
    }
}

/// Effect of one decoded key.
pub open spec fn key_step(st: ShellState, scr: Screen, key: Key) -> (ShellState, Screen, Action) {
    match key {
        Key::Char(c) => if c as u32 == 0x0a {
            enter_step(st, scr)
        } else if c as u32 == 0x08 || c as u32 == 0x7f {
            let (s, w) = backspace_step(st, scr);
            (s, w, Action::Continue)
        } else if printable(c) {
            let (s, w) = push_char_step(st, scr, c);
            (s, w, Action::Continue)
        } else {
            (st, scr, Action::Continue)
        },
        Key::ArrowUp => {
            let (s, w) = prev_step(st, scr);
            (s, w, Action::Continue)
        },
        Key::ArrowDown => {
            let (s, w) = next_step(st, scr);
            (s, w, Action::Continue)
        },
        Key::Other => (st, scr, Action::Continue),
    }
}

/// The line-editing shell: line buffer, history ring and command dispatch.
pub struct Shell {
    line: Vec<u8>,
    history: Vec<Vec<u8>>,
    history_index: usize,
    history_count: usize,
    browse_index: Option<usize>,
}

impl View for Shell {
    type V = ShellState;

    closed spec fn view(&self) -> ShellState {
        ShellState {
            line: self.line@,
            slots: self.history@.map_values(|v: Vec<u8>| v@),
            index: self.history_index as int,
            count: self.history_count as int,
            browse: match self.browse_index {
                Some(b) => Some(b as int),
                None => None,
            },
        }
    }
}

impl Shell {
    pub closed spec fn wf(&self) -> bool {
        &&& self@.wf()
        &&& self.history@.len() == HISTORY_SIZE
    }

    pub fn new() -> (sh: Shell)
        ensures
            sh.wf(),
            sh@ == ShellState::initial(),
    {
        let mut history: Vec<Vec<u8>> = Vec::new();
        while history.len() < HISTORY_SIZE
            invariant
                history@.len() <= HISTORY_SIZE,
                forall|i: int| 0 <= i < history@.len() ==> (#[trigger] history@[i])@ == Seq::<u8>::empty(),
            decreases HISTORY_SIZE - history@.len(),
        {
            history.push(Vec::new());
        }
        let sh = Shell { line: Vec::new(), history, history_index: 0, history_count: 0, browse_index: None };
        assert(sh@.slots =~= ShellState::initial().slots);
        sh
    }

    fn push_char(&mut self, writer: &mut Writer, c: char)
        requires
            old(self).wf(),
            old(writer).wf(),
        ensures
            final(self).wf(),
            final(writer).wf(),
            (final(self)@, final(writer)@) == push_char_step(old(self)@, old(writer)@, c),
    {
        if self.line.len() < LINE_BUF_LEN - 1 {
            let byte = c as u32 as u8;
            self.line.push(byte);
            self.browse_index = None;
            writer.write_byte(byte);
        } else {
            writer.write_string(BUFFER_FULL_NOTICE);
            self.line.clear();
            self.browse_index = None;
            writer.write_string(PROMPT);
        }
        assert(self@.slots == old(self)@.slots);
    }

    fn backspace(&mut self, writer: &mut Writer)
        requires
            old(self).wf(),
            old(writer).wf(),
        ensures
            final(self).wf(),
            final(writer).wf(),
            (final(self)@, final(writer)@) == backspace_step(old(self)@, old(writer)@),
    {
        if self.line.len() > 0 {
            self.line.pop();
            self.browse_index = None;
            writer.backspace();
            assert(self@.line =~= old(self)@.line.drop_last());
        }
        assert(self@.slots == old(self)@.slots);
    }

    fn clear_current_line(&mut self, writer: &mut Writer)
        requires
            old(self).wf(),
            old(writer).wf(),
        ensures
            final(self).wf(),
            final(writer).wf(),
            final(self)@ == (ShellState { line: Seq::empty(), ..old(self)@ }),
            final(writer)@ == old(writer)@.backspaces(old(self)@.line.len()),
    {
        let n = self.line.len();
        let ghost start = writer@;
        let mut i: usize = 0;
        while i < n
            invariant
                i <= n,
                writer.wf(),
                writer@ == start.backspaces(i as nat),
            decreases n - i,
        {
            writer.backspace();
            i = i + 1;
        }
        self.line.clear();
        assert(self@.slots == old(self)@.slots);
        assert(self@.line =~= Seq::<u8>::empty());
    }

    fn load_history_line(&mut self, writer: &mut Writer, slot: usize)
        requires
            old(self).wf(),
            old(writer).wf(),
            slot < HISTORY_SIZE,
        ensures
            final(self).wf(),
            final(writer).wf(),
            (final(self)@, final(writer)@) == load_step(old(self)@, old(writer)@, slot as int),
    {
        self.clear_current_line(writer);
        let entry = copy_range(self.history[slot].as_slice(), 0, self.history[slot].len());
        assert(entry@ =~= old(self)@.slots[slot as int]);
        writer.write_bytes(entry.as_slice());
        self.line = entry;
        assert(self@.slots == old(self)@.slots);
    }

    fn history_prev(&mut self, writer: &mut Writer)
        requires
            old(self).wf(),
            old(writer).wf(),
        ensures
            final(self).wf(),
            final(writer).wf(),
            (final(self)@, final(writer)@) == prev_step(old(self)@, old(writer)@),
    {
        if self.history_count == 0 {
            return;
        }
        let slot = match self.browse_index {
            None => (self.history_index + HISTORY_SIZE - 1) % HISTORY_SIZE,
            Some(b) => {
                let oldest = if self.history_count < HISTORY_SIZE { 0 } else { self.history_index };
                if b == oldest {
                    return;
                }
                (b + HISTORY_SIZE - 1) % HISTORY_SIZE
            },
        };
        self.load_history_line(writer, slot);
        self.browse_index = Some(slot);
    }

    fn history_next(&mut self, writer: &mut Writer)
        requires
            old(self).wf(),
            old(writer).wf(),
        ensures
            final(self).wf(),
            final(writer).wf(),
            (final(self)@, final(writer)@) == next_step(old(self)@, old(writer)@),
    {
        match self.browse_index {
            None => {},
            Some(b) => {
                let next = (b + 1) % HISTORY_SIZE;
                if next == self.history_index {
                    self.browse_index = None;
                    self.clear_current_line(writer);
                } else {
                    self.load_history_line(writer, next);
                    self.browse_index = Some(next);
                }
            },
        }
    }

    fn add_to_history(&mut self, line: &[u8])
        requires
            old(self).wf(),
            line@.len() < LINE_BUF_LEN,
        ensures
            final(self).wf(),
            final(self)@ == old(self)@.add_history(line@),
    {
        let entry = copy_range(line, 0, line.len());
        assert(entry@ =~= line@);
        self.history.set(self.history_index, entry);
        self.history_index = (self.history_index + 1) % HISTORY_SIZE;
        if self.history_count < HISTORY_SIZE {
            self.history_count = self.history_count + 1;
        }
        assert(self@.slots =~= old(self)@.slots.update(old(self)@.index, line@));
    }

    fn history_output(&self) -> (r: Vec<u8>)
        requires
            self.wf(),
        ensures
            r@ == history_text(self@),
    {
        let mut out: Vec<u8> = Vec::new();
        if self.history_count == 0 {
            append_str(&mut out, NO_HISTORY);
            return out;
        }
        append_str(&mut out, HISTORY_HEADER);
        assert(out@ =~= history_lines(self@.history(), 0));
        let start = if self.history_count < HISTORY_SIZE { 0 } else { self.history_index };
        let mut i: usize = 0;
        while i < self.history_count
            invariant
                self.wf(),
                start == self@.oldest(),
                i <= self.history_count,
                out@ == history_lines(self@.history(), i as int),
            decreases self.history_count - i,
        {
            let slot = (start + i) % HISTORY_SIZE;
            append_str(&mut out, "  ");
            append_decimal(&mut out, i + 1);
            out.push(0x20u8);
            append_bytes(&mut out, self.history[slot].as_slice());
            out.push(0x0au8);
            i = i + 1;
            assert(out@ =~= history_lines(self@.history(), i as int));
        }
        out
    }

    fn execute_command(&self, writer: &mut Writer, line: &[u8]) -> (act: Action)
        requires
            self.wf(),
            old(writer).wf(),
        ensures
            final(writer).wf(),
            (final(writer)@, act) == command_step(self@, old(writer)@, line@),
    {
        let spans = split_whitespace(line);
        if spans.len() == 0 {
            return Action::Continue;
        }
        let name = copy_range(line, spans[0].0, spans[0].1);
        match find_command(name.as_slice()) {
            Some(Command::Help) => {
                let out = help_output();
                writer.write_bytes(out.as_slice());
                Action::Continue
            },
            Some(Command::Echo) => {
                let out = echo_output(line, &spans);
                writer.write_bytes(out.as_slice());
                Action::Continue
            },
            Some(Command::Clear) => {
                writer.clear_screen();
                Action::Continue
            },
            Some(Command::Reboot) => {
                writer.write_string(REBOOT_NOTICE);
                Action::Reboot
            },
            Some(Command::History) => {
                let out = self.history_output();
                writer.write_bytes(out.as_slice());
                Action::Continue
            },
            None => {
                let mut out: Vec<u8> = Vec::new();
                append_str(&mut out, UNKNOWN_PREFIX);
                append_bytes(&mut out, name.as_slice());
                append_str(&mut out, UNKNOWN_SUFFIX);
                writer.write_bytes(out.as_slice());
                Action::Continue
            },
        }
    }

    fn submit_line(&mut self, writer: &mut Writer) -> (act: Action)
        requires
            old(self).wf(),
            old(writer).wf(),
        ensures
            final(self).wf(),
            final(writer).wf(),
            (final(self)@, final(writer)@, act) == enter_step(old(self)@, old(writer)@),
    {
        let cmd = copy_range(self.line.as_slice(), 0, self.line.len());
        assert(cmd@ =~= old(self)@.line);
        self.line.clear();
        self.browse_index = None;
        assert(self@.slots == old(self)@.slots);
        assert(self@ == (ShellState { line: Seq::empty(), browse: None, ..old(self)@ }));
        writer.write_byte(0x0au8);
        if cmd.len() > 0 {
            self.add_to_history(cmd.as_slice());
            let act = self.execute_command(writer, cmd.as_slice());
            if act == Action::Reboot {
                return Action::Reboot;
            }
        }
        writer.write_string(PROMPT);
        Action::Continue
    }
}

impl Shell {
    /// The line being typed.
    pub fn line(&self) -> (r: &[u8])
        requires
            self.wf(),
        ensures
            r@ == self@.line,
    {
        self.line.as_slice()
    }

    /// Number of saved lines.
    pub fn history_len(&self) -> (r: usize)
        requires
            self.wf(),
        ensures
            r == self@.history().len(),
    {
        self.history_count
    }

    /// The saved line at `position`, counting from the oldest.
    pub fn history_entry(&self, position: usize) -> (r: Vec<u8>)
        requires
            self.wf(),
            position < self@.history().len(),
        ensures
            r@ == self@.history()[position as int],
    {
        let start = if self.history_count < HISTORY_SIZE { 0 } else { self.history_index };
        let slot = (start + position) % HISTORY_SIZE;
        copy_range(self.history[slot].as_slice(), 0, self.history[slot].len())
    }

    /// Whether a saved line is currently recalled into the line.
    pub fn is_browsing(&self) -> (r: bool)
        requires
            self.wf(),
        ensures
            r == self@.browse is Some,
    {
        self.browse_index.is_some()
    }
}

/// Handles one decoded key: edits the line, walks the history, or on
/// Enter saves and runs the line.
pub fn process_key(shell: &mut Shell, writer: &mut Writer, key: Key) -> (act: Action)
    requires
        old(shell).wf(),
        old(writer).wf(),
    ensures
        final(shell).wf(),
        final(writer).wf(),
        (final(shell)@, final(writer)@, act) == key_step(old(shell)@, old(writer)@, key),
{
    match key {
        Key::Char(c) => {
            let code = c as u32;
            if code == 0x0a {
                shell.submit_line(writer)
            } else if code == 0x08 || code == 0x7f {
                shell.backspace(writer);
                Action::Continue
            } else if 0x20 <= code && code <= 0x7e {
                shell.push_char(writer, c);
                Action::Continue
            } else {
                Action::Continue
            }
        },
        Key::ArrowUp => {
            shell.history_prev(writer);
            Action::Continue
        },
        Key::ArrowDown => {
            shell.history_next(writer);
            Action::Continue
        },
        Key::Other => Action::Continue,
    }
}

fn echo_output(line: &[u8], spans: &Vec<(usize, usize)>) -> (r: Vec<u8>)
    requires
        spans@.len() == tokens(line@).len(),
        spans@.len() > 0,
        forall|i: int| 0 <= i < spans@.len() ==> (#[trigger] spans@[i]).0 <= spans@[i].1 <= line@.len()
            && line@.subrange(spans@[i].0 as int, spans@[i].1 as int) == tokens(line@)[i],
    ensures
        r@ == join_words(tokens(line@).drop_first()) + seq![0x0au8],
{
    let ghost toks = tokens(line@);
    let mut out: Vec<u8> = Vec::new();
    let mut k: usize = 1;
    assert(toks.subrange(1, 1) =~= Seq::<Seq<u8>>::empty());
    while k < spans.len()
        invariant
            1 <= k <= spans@.len(),
            spans@.len() == toks.len(),
            toks == tokens(line@),
            forall|i: int| 0 <= i < spans@.len() ==> (#[trigger] spans@[i]).0 <= spans@[i].1 <= line@.len()
                && line@.subrange(spans@[i].0 as int, spans@[i].1 as int) == toks[i],
            out@ == join_words(toks.subrange(1, k as int)),
        decreases spans@.len() - k,
    {
        if k > 1 {
            out.push(0x20u8);
        }
        let (s, e) = spans[k];
        let word = copy_range(line, s, e);
        append_bytes(&mut out, word.as_slice());
        proof {
            assert(toks.subrange(1, k + 1).drop_last() =~= toks.subrange(1, k as int));
            if k == 1 {
                assert(join_words(toks.subrange(1, 1)) =~= Seq::<u8>::empty());
            }
        }
        k = k + 1;
        assert(out@ =~= join_words(toks.subrange(1, k as int)));
    }
    assert(toks.subrange(1, k as int) =~= toks.drop_first());
    out.push(0x0au8);
    out
}

// ---------------------------------------------------------------------------
// Properties of the shell
// ---------------------------------------------------------------------------

/// The shell after the characters `cs` are typed one after another.
pub open spec fn type_chars(st: ShellState, scr: Screen, cs: Seq<char>) -> (ShellState, Screen)
    decreases cs.len(),
{
    if cs.len() == 0 {
        (st, scr)
    } else {
        let prev = type_chars(st, scr, cs.drop_last());
        let next = key_step(prev.0, prev.1, Key::Char(cs.last()));
        (next.0, next.1)
    }
}

/// The bytes of a sequence of ASCII characters.
pub open spec fn ascii_bytes(cs: Seq<char>) -> Seq<u8> {
    cs.map_values(|c: char| c as u32 as u8)
}

/// Typing fewer than `LINE_BUF_LEN` printable characters on an empty line
/// leaves exactly their bytes in the line, and that line is what Enter
/// submits for dispatch.
pub proof fn lemma_typed_line_is_submitted(st: ShellState, scr: Screen, cs: Seq<char>)
    requires
        st.wf(),
        scr.wf(),
        st.line.len() == 0,
        cs.len() < LINE_BUF_LEN,
        forall|i: int| 0 <= i < cs.len() ==> printable(#[trigger] cs[i]),
    ensures
        type_chars(st, scr, cs).0.wf(),
        type_chars(st, scr, cs).0.line == ascii_bytes(cs),
        cs.len() > 0 ==> submitted(type_chars(st, scr, cs).0) == Some(ascii_bytes(cs)),
    decreases cs.len(),
{
    if cs.len() > 0 {
        let init = cs.drop_last();
        lemma_typed_line_is_submitted(st, scr, init);
        let prev = type_chars(st, scr, init);
        let c = cs.last();
        assert(printable(cs[cs.len() - 1]));
        assert(ascii_bytes(cs) =~= ascii_bytes(init).push(c as u32 as u8));
    }
}

/// Saving a line appends it to the history; once the ring is full the
/// oldest entry is dropped.
pub proof fn lemma_add_history_ring(st: ShellState, l: Seq<u8>)
    requires
        st.wf(),
        l.len() < LINE_BUF_LEN,
    ensures
        st.add_history(l).wf(),
        st.count < HISTORY_SIZE ==> st.add_history(l).history() == st.history().push(l),
        st.count == HISTORY_SIZE ==> st.add_history(l).history() == st.history().drop_first().push(l),
{
    let t = st.add_history(l);
    if st.count < HISTORY_SIZE {
        assert(t.history() =~= st.history().push(l));
    } else {
        assert(t.history() =~= st.history().drop_first().push(l));
    }
}

/// Arrow-up walks the history from the newest entry towards the oldest, one
/// entry per press, loading each into the line; at the oldest entry it does
/// nothing.
pub proof fn lemma_prev_walks_back(st: ShellState, scr: Screen)
    requires
        st.wf(),
        st.count > 0,
    ensures
        st.browse is None ==> prev_step(st, scr).0.browse == Some(st.newest())
            && st.position(st.newest()) == st.count - 1
            && prev_step(st, scr).0.line == st.history()[st.count - 1],
        st.browse is Some && st.position(st.browse->0) == 0 ==> prev_step(st, scr) == (st, scr),
        st.browse is Some && st.position(st.browse->0) > 0 ==> prev_step(st, scr).0.browse is Some
            && st.position(prev_step(st, scr).0.browse->0) == st.position(st.browse->0) - 1
            && prev_step(st, scr).0.line == st.history()[st.position(st.browse->0) - 1],
{
}

/// Arrow-up with no history changes nothing.
pub proof fn lemma_prev_without_history(st: ShellState, scr: Screen)
    requires
        st.wf(),
        st.count == 0,
    ensures
        prev_step(st, scr) == (st, scr),
{
}

/// Arrow-up and then arrow-down, starting from a freshly typed line with some
/// history, leaves the line empty and recall ended.
pub proof fn lemma_prev_then_next_empties(st: ShellState, scr: Screen)
    requires
        st.wf(),
        st.count > 0,
        st.browse is None,
    ensures
        ({
            let up = prev_step(st, scr);
            let down = next_step(up.0, up.1);
            down.0.line == Seq::<u8>::empty() && down.0.browse is None
        }),
{
}

/// Enter records the submitted line in the history, dropping the oldest
/// entry once the ring is full, and leaves an empty line with recall ended.
pub proof fn lemma_enter_records_line(st: ShellState, scr: Screen)
    requires
        st.wf(),
        submitted(st) is Some,
    ensures
        enter_step(st, scr).0.wf(),
        enter_step(st, scr).0.line == Seq::<u8>::empty(),
        enter_step(st, scr).0.browse is None,
        st.count < HISTORY_SIZE ==> enter_step(st, scr).0.history() == st.history().push(st.line),
        st.count == HISTORY_SIZE ==> enter_step(st, scr).0.history()
            == st.history().drop_first().push(st.line),
{
    let st1 = ShellState { line: Seq::empty(), browse: None, ..st };
    lemma_add_history_ring(st1, st.line);
    assert(st1.history() == st.history());
}

/// Enter on an empty line saves nothing, runs nothing, and only moves to a
/// new row with a fresh prompt.
pub proof fn lemma_enter_on_empty_line(st: ShellState, scr: Screen)
    requires
        st.wf(),
        st.line.len() == 0,
    ensures
        enter_step(st, scr).0.history() == st.history(),
        enter_step(st, scr).0.count == st.count,
        enter_step(st, scr).1 == scr.put(0x0a).put_str(PROMPT.spec_bytes()),
        enter_step(st, scr).2 == Action::Continue,
{
    let st1 = ShellState { line: Seq::empty(), browse: None, ..st };
    assert(st1.history() == st.history());
}

/// The ring after saving `l` `n` times.
pub open spec fn add_repeated(st: ShellState, l: Seq<u8>, n: nat) -> ShellState
    decreases n,
{
    if n == 0 {
        st
    } else {
        add_repeated(st, l, (n - 1) as nat).add_history(l)
    }
}

/// Saving the same line `n` times into an empty history keeps it
/// `min(n, HISTORY_SIZE)` times: each copy is its own entry.
pub proof fn lemma_same_line_repeated(st: ShellState, l: Seq<u8>, n: nat)
    requires
        st.wf(),
        st.count == 0,
        l.len() < LINE_BUF_LEN,
    ensures
        add_repeated(st, l, n).wf(),
        add_repeated(st, l, n).history() == Seq::new(
            if n < HISTORY_SIZE { n } else { HISTORY_SIZE as nat },
            |i: int| l,
        ),
    decreases n,
{
    if n > 0 {
        lemma_same_line_repeated(st, l, (n - 1) as nat);
        let prev = add_repeated(st, l, (n - 1) as nat);
        lemma_add_history_ring(prev, l);
        let m: nat = if n < HISTORY_SIZE { n } else { HISTORY_SIZE as nat };
        if prev.count < HISTORY_SIZE {
            assert(prev.history().push(l) =~= Seq::new(m, |i: int| l));
        } else {
            assert(prev.history().drop_first().push(l) =~= Seq::new(m, |i: int| l));
        }
    }
}

/// The shell after `k` presses of arrow-up.
pub open spec fn press_up(st: ShellState, scr: Screen, k: nat) -> (ShellState, Screen)
    decreases k,
{
    if k == 0 {
        (st, scr)
    } else {
        let p = press_up(st, scr, (k - 1) as nat);
        prev_step(p.0, p.1)
    }
}

proof fn lemma_prev_step_keeps_ring(st: ShellState, scr: Screen)
    requires
        st.wf(),
    ensures
        prev_step(st, scr).0.wf(),
        prev_step(st, scr).0.slots == st.slots,
        prev_step(st, scr).0.index == st.index,
        prev_step(st, scr).0.count == st.count,
        prev_step(st, scr).0.history() == st.history(),
{
    let t = prev_step(st, scr).0;
    assert(t.history() =~= st.history());
}

/// Starting from a freshly typed line with `n > 0` saved lines, the `k`-th
/// arrow-up press recalls the `k`-th most recent entry while `k <= n`, and
/// keeps the oldest entry after that.
pub proof fn lemma_arrow_up_presses(st: ShellState, scr: Screen, k: nat)
    requires
        st.wf(),
        st.count > 0,
        st.browse is None,
        k >= 1,
    ensures
        press_up(st, scr, k).0.wf(),
        press_up(st, scr, k).0.slots == st.slots,
        press_up(st, scr, k).0.index == st.index,
        press_up(st, scr, k).0.count == st.count,
        press_up(st, scr, k).0.history() == st.history(),
        press_up(st, scr, k).0.browse is Some,
        st.position(press_up(st, scr, k).0.browse->0) == if k <= st.count { st.count - k } else { 0 },
        press_up(st, scr, k).0.line == st.history()[if k <= st.count { st.count - k } else { 0 }],
    decreases k,
{
    if k == 1 {
        lemma_prev_walks_back(st, scr);
        lemma_prev_step_keeps_ring(st, scr);
    } else {
        lemma_arrow_up_presses(st, scr, (k - 1) as nat);
        let p = press_up(st, scr, (k - 1) as nat);
        lemma_prev_walks_back(p.0, p.1);
        lemma_prev_step_keeps_ring(p.0, p.1);
        assert(p.0.oldest() == st.oldest());
    }
}

} // verus!
