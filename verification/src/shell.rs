//! The debug shell: how a line is put together from the bytes that are
//! typed, and how it is taken apart into a command.

use vstd::prelude::*;

verus! {

/// Why a line is no command.
#[derive(Debug, Copy, Clone, PartialEq, Eq, Structural)]
pub enum Error {
    /// The line holds no word.
    Empty,
    /// The line holds more words than a command has room for.
    TooManyArgs,
}

/// Largest number of bytes of a line, the end of the line included.
pub const LINE_MAX: usize = 512;

/// Largest number of words of a command.
pub const ARGS_MAX: usize = 64;

/// The byte that rings the bell of the terminal.
pub const BELL: u8 = 0x07;

/// The byte that moves the cursor back by one.
pub const BACKSPACE: u8 = 0x08;

/// The byte that the delete key sends.
pub const DELETE: u8 = 0x7f;

/// The bytes of `line` before its first space.
pub open spec fn first_word(line: Seq<u8>) -> Seq<u8>
    decreases line.len(),
{
    if line.len() == 0 || line[0] == 0x20 {
        Seq::empty()
    } else {
        seq![line[0]] + first_word(line.drop_first())
    }
}

/// The words of `line`: the longest runs of bytes without a space, in
/// order.
pub open spec fn words(line: Seq<u8>) -> Seq<Seq<u8>>
    decreases line.len(),
{
    if line.len() == 0 {
        Seq::empty()
    } else if line[0] == 0x20 {
        words(line.drop_first())
    } else {
        let word = first_word(line);
        if 0 < word.len() <= line.len() {
            seq![word] + words(line.subrange(word.len() as int, line.len() as int))
        } else {
            Seq::empty()
        }
    }
}

/// The first word of a line that does not begin with a space is not empty
/// and not longer than the line, and it is the part of the line before
/// position `end` if no space stands before `end` and a space, or the end
/// of the line, stands at `end`.
pub proof fn lemma_first_word(line: Seq<u8>, end: int)
    requires
        0 <= end <= line.len(),
        forall|j: int| 0 <= j < end ==> line[j] != 0x20,
        end < line.len() ==> line[end] == 0x20,
    ensures
        first_word(line) == line.subrange(0, end),
    decreases end,
{
    if end == 0 {
        assert(line.subrange(0, 0) =~= Seq::<u8>::empty());
    } else {
        let rest = line.drop_first();
        assert forall|j: int| 0 <= j < end - 1 implies rest[j] != 0x20 by {
            assert(rest[j] == line[j + 1]);
        }
        lemma_first_word(rest, end - 1);
        assert(seq![line[0]] + rest.subrange(0, end - 1) =~= line.subrange(0, end));
    }
}

/// The words of a line are the words of what follows its leading spaces.
pub proof fn lemma_words_skip(line: Seq<u8>, start: int)
    requires
        0 <= start <= line.len(),
        forall|j: int| 0 <= j < start ==> line[j] == 0x20,
    ensures
        words(line) == words(line.subrange(start, line.len() as int)),
    decreases start,
{
    if start == 0 {
        assert(line.subrange(0, line.len() as int) =~= line);
    } else {
        let rest = line.drop_first();
        assert forall|j: int| 0 <= j < start - 1 implies rest[j] == 0x20 by {
            assert(rest[j] == line[j + 1]);
        }
        lemma_words_skip(rest, start - 1);
        assert(rest.subrange(start - 1, rest.len() as int) =~= line.subrange(
            start,
            line.len() as int,
        ));
    }
}

/// What a line is as a command: its words, unless it has none or too many.
pub open spec fn parsed(line: Seq<u8>, max: int) -> Result<Seq<Seq<u8>>, Error> {
    if words(line).len() > max {
        Err(Error::TooManyArgs)
    } else if words(line).len() == 0 {
        Err(Error::Empty)
    } else {
        Ok(words(line))
    }
}

/// A command: the words of a line.
#[derive(Debug, PartialEq, Eq)]
pub struct Command {
    pub args: Vec<Vec<u8>>,
}

impl View for Command {
    type V = Seq<Seq<u8>>;

    open spec fn view(&self) -> Seq<Seq<u8>> {
        Seq::new(self.args@.len(), |i: int| self.args@[i]@)
    }
}

impl Command {
    /// Takes `line` apart into the words of a command, of which there may
    /// be `max` at most.
    ///
    /// The result is `TooManyArgs` if the line holds more than `max` words,
    /// and `Empty` if it holds none.
    pub fn parse(line: &[u8], max: usize) -> (r: Result<Command, Error>)
        ensures
            match parsed(line@, max as int) {
                Ok(args) => r matches Ok(command) && command@ == args,
                Err(e) => r == Err::<Command, Error>(e),
            },
    {
        let n = line.len();
        let mut args: Vec<Vec<u8>> = Vec::new();
        let mut i: usize = 0;
        proof {
            assert(line@.subrange(0, n as int) =~= line@);
        }
        while i < n
            invariant
                i <= n,
                n == line@.len(),
                args@.len() <= max,
                words(line@) == Seq::new(args@.len(), |k: int| args@[k]@) + words(
                    line@.subrange(i as int, n as int),
                ),
            decreases n - i,
        {
            let ghost rest = line@.subrange(i as int, n as int);
            if line[i] == 0x20 {
                proof {
                    assert(rest.drop_first() =~= line@.subrange(i + 1, n as int));
                }
                i = i + 1;
                continue;
            }
            let start = i;
            let mut word: Vec<u8> = Vec::new();
            while i < n && line[i] != 0x20
                invariant
                    start <= i <= n,
                    n == line@.len(),
                    word@ == line@.subrange(start as int, i as int),
                    forall|j: int| start <= j < i ==> line@[j] != 0x20,
                decreases n - i,
            {
                word.push(line[i]);
                i = i + 1;
                assert(word@ =~= line@.subrange(start as int, i as int));
            }
            proof {
                assert forall|j: int| 0 <= j < i - start implies rest[j] != 0x20 by {
                    assert(rest[j] == line@[start + j]);
                }
                lemma_first_word(rest, i - start);
                assert(rest.subrange(0, i - start) =~= word@);
                assert(rest.subrange(word@.len() as int, rest.len() as int) =~= line@.subrange(
                    i as int,
                    n as int,
                ));
            }
            let ghost before = Seq::new(args@.len(), |k: int| args@[k]@);
            if args.len() >= max {
                return Err(Error::TooManyArgs);
            }
            args.push(word);
            proof {
                let after = Seq::new(args@.len(), |k: int| args@[k]@);
                assert(after =~= before + seq![word@]);
                assert(before + (seq![word@] + words(line@.subrange(i as int, n as int))) =~= after
                    + words(line@.subrange(i as int, n as int)));
            }
        }
        proof {
            assert(line@.subrange(n as int, n as int) =~= Seq::<u8>::empty());
            assert(words(line@) =~= Seq::new(args@.len(), |k: int| args@[k]@));
        }
        if args.len() == 0 {
            return Err(Error::Empty);
        }
        Ok(Command { args })
    }

    /// The first word of the command: the program to run.
    pub fn path(&self) -> (r: &Vec<u8>)
        requires
            self@.len() > 0,
        ensures
            r@ == self@[0],
    {
        &self.args[0]
    }
}

/// What a line editor does with a byte that was typed.
#[derive(Debug, PartialEq, Eq)]
pub struct Keystroke {
    /// The bytes to send back to the terminal.
    pub echo: Vec<u8>,
    /// Whether the byte ended the line.
    pub done: bool,
}

/// The line that is being typed.
#[derive(Debug, PartialEq, Eq)]
pub struct LineEditor {
    line: Vec<u8>,
}

impl View for LineEditor {
    type V = Seq<u8>;

    closed spec fn view(&self) -> Seq<u8> {
        self.line@
    }
}

/// The line after the byte `b` was typed.
pub open spec fn typed(line: Seq<u8>, b: u8) -> Seq<u8> {
    if line.len() == 0 && b == 0 {
        line
    } else if b == DELETE || b == BACKSPACE {
        if line.len() == 0 {
            line
        } else {
            line.drop_last()
        }
    } else if b == 0x0d || b == 0x0a {
        line
    } else if line.len() == LINE_MAX - 1 || b >= 0x80 {
        line
    } else {
        line.push(b)
    }
}

/// What is sent back to the terminal when the byte `b` is typed: nothing
/// for a zero byte at the start of a line; for a deletion the bell if the
/// line is empty, and else what wipes the last character out; for the end
/// of the line that byte and a line feed; the bell for a byte that the line
/// has no room for or that is not ASCII; and any other byte itself.
pub open spec fn echoed(line: Seq<u8>, b: u8) -> Seq<u8> {
    if line.len() == 0 && b == 0 {
        Seq::empty()
    } else if b == DELETE || b == BACKSPACE {
        if line.len() == 0 {
            seq![BELL]
        } else {
            seq![BACKSPACE, 0x20u8, BACKSPACE]
        }
    } else if b == 0x0d || b == 0x0a {
        seq![b, 0x0au8]
    } else if line.len() == LINE_MAX - 1 || b >= 0x80 {
        seq![BELL]
    } else {
        seq![b]
    }
}

/// The byte `b` ends the line, unless it is typed as nothing.
pub open spec fn ends_line(line: Seq<u8>, b: u8) -> bool {
    b == 0x0d || b == 0x0a
}

impl LineEditor {
    /// An editor with an empty line.
    pub fn new() -> (r: LineEditor)
        ensures
            r@ == Seq::<u8>::empty(),
    {
        LineEditor { line: Vec::new() }
    }

    /// The line as it stands.
    pub fn line(&self) -> (r: &Vec<u8>)
        ensures
            r@ == self@,
    {
        &self.line
    }

    /// Takes the byte `b` that was typed.
    pub fn feed(&mut self, b: u8) -> (r: Keystroke)
        requires
            old(self)@.len() < LINE_MAX,
        ensures
            final(self)@ == typed(old(self)@, b),
            final(self)@.len() < LINE_MAX,
            r.echo@ == echoed(old(self)@, b),
            r.done == ends_line(old(self)@, b),
            forall|i: int|
                0 <= i < old(self)@.len() && old(self)@[i] < 0x80 && i < final(self)@.len()
                    ==> final(self)@[i] < 0x80,
    {
        let n = self.line.len();
        let mut echo: Vec<u8> = Vec::new();
        if n == 0 && b == 0 {
            return Keystroke { echo, done: false };
        }
        if b == DELETE || b == BACKSPACE {
            if n == 0 {
                echo.push(BELL);
            } else {
                let _ = self.line.pop();
                echo.push(BACKSPACE);
                echo.push(0x20);
                echo.push(BACKSPACE);
                assert(self.line@ =~= old(self)@.drop_last());
            }
            assert(echo@ =~= echoed(old(self)@, b));
            return Keystroke { echo, done: false };
        }
        if b == 0x0d || b == 0x0a {
            echo.push(b);
            echo.push(0x0a);
            assert(echo@ =~= echoed(old(self)@, b));
            return Keystroke { echo, done: true };
        }
        if n == LINE_MAX - 1 || b >= 0x80 {
            echo.push(BELL);
            assert(echo@ =~= echoed(old(self)@, b));
            return Keystroke { echo, done: false };
        }
        echo.push(b);
        self.line.push(b);
        assert(echo@ =~= echoed(old(self)@, b));
        Keystroke { echo, done: false }
    }

    /// Takes the line as a command, and begins a new line.
    pub fn take(&mut self) -> (r: Result<Command, Error>)
        ensures
            final(self)@ == Seq::<u8>::empty(),
            match parsed(old(self)@, ARGS_MAX as int) {
                Ok(args) => r matches Ok(command) && command@ == args,
                Err(e) => r == Err::<Command, Error>(e),
            },
    {
        let r = Command::parse(self.line.as_slice(), ARGS_MAX);
        self.line = Vec::new();
        r
    }
}

/// What `ls` is asked to list.
#[derive(Debug, PartialEq, Eq)]
pub struct Listing {
    /// Whether hidden entries are listed too.
    pub hidden: bool,
    /// The directory to list.
    pub dir: Vec<u8>,
}

/// The word `word` is `-a`.
pub open spec fn is_all_flag(word: Seq<u8>) -> bool {
    word == seq![0x2du8, 0x61u8]
}

/// Whether `word` is `-a`.
fn all_flag(word: &Vec<u8>) -> (r: bool)
    ensures
        r == is_all_flag(word@),
{
    let r = word.len() == 2 && word[0] == 0x2d && word[1] == 0x61;
    proof {
        if r {
            assert(word@ =~= seq![0x2du8, 0x61u8]);
        }
    }
    r
}

/// What the words `args` ask `ls` to list: the directory `.` without the
/// hidden entries by default; `-a` as the first word behind the name of the
/// command asks for the hidden entries, and a word behind that names the
/// directory. `None` for more words than that.
pub open spec fn listing_of(args: Seq<Seq<u8>>) -> Option<(bool, Seq<u8>)> {
    if args.len() <= 1 {
        Some((false, seq![0x2eu8]))
    } else if args.len() == 2 {
        if is_all_flag(args[1]) {
            Some((true, seq![0x2eu8]))
        } else {
            Some((false, args[1]))
        }
    } else if args.len() == 3 && is_all_flag(args[1]) {
        Some((true, args[2]))
    } else {
        None
    }
}

/// What the command `cmd` asks `ls` to list, or `None` if the command has
/// words that `ls` has no use for.
pub fn ls_options(cmd: &Command) -> (r: Option<Listing>)
    ensures
        match listing_of(cmd@) {
            Some((hidden, dir)) => r matches Some(listing) && listing.hidden == hidden
                && listing.dir@ == dir,
            None => r is None,
        },
{
    let n = cmd.args.len();
    let mut here: Vec<u8> = Vec::new();
    here.push(0x2e);
    assert(here@ =~= seq![0x2eu8]);
    if n <= 1 {
        Some(Listing { hidden: false, dir: here })
    } else if n == 2 {
        if all_flag(&cmd.args[1]) {
            Some(Listing { hidden: true, dir: here })
        } else {
            Some(Listing { hidden: false, dir: cmd.args[1].clone() })
        }
    } else if n == 3 && all_flag(&cmd.args[1]) {
        Some(Listing { hidden: true, dir: cmd.args[2].clone() })
    } else {
        None
    }
}

/// The directory that the words `args` ask `cd` to go to: `/` by default,
/// or the one word behind the name of the command. `None` for more words
/// than that.
pub open spec fn target_of(args: Seq<Seq<u8>>) -> Option<Seq<u8>> {
    if args.len() <= 1 {
        Some(seq![0x2fu8])
    } else if args.len() == 2 {
        Some(args[1])
    } else {
        None
    }
}

/// The directory that the command `cmd` asks `cd` to go to, or `None` if
/// the command has words that `cd` has no use for.
pub fn cd_target(cmd: &Command) -> (r: Option<Vec<u8>>)
    ensures
        match target_of(cmd@) {
            Some(dir) => r matches Some(target) && target@ == dir,
            None => r is None,
        },
{
    let n = cmd.args.len();
    if n <= 1 {
        let mut root: Vec<u8> = Vec::new();
        root.push(0x2f);
        assert(root@ =~= seq![0x2fu8]);
        Some(root)
    } else if n == 2 {
        Some(cmd.args[1].clone())
    } else {
        None
    }
}

/// The words of `args` behind the first, with a space between each two.
pub open spec fn echo_of(args: Seq<Seq<u8>>) -> Seq<u8>
    decreases args.len(),
{
    if args.len() <= 1 {
        Seq::empty()
    } else if args.len() == 2 {
        args[1]
    } else {
        echo_of(args.drop_last()) + seq![0x20u8] + args.last()
    }
}

/// What `echo` prints for the command `cmd`: its words behind the first,
/// with a space between each two.
pub fn echo_text(cmd: &Command) -> (r: Vec<u8>)
    ensures
        r@ == echo_of(cmd@),
{
    let n = cmd.args.len();
    let mut out: Vec<u8> = Vec::new();
    let mut i: usize = 1;
    if n <= 1 {
        return out;
    }
    proof {
        assert(cmd@.subrange(0, 1).len() == 1);
    }
    while i < n
        invariant
            1 <= i <= n,
            n == cmd.args@.len(),
            out@ == echo_of(cmd@.subrange(0, i as int)),
        decreases n - i,
    {
        let ghost before = out@;
        if i > 1 {
            out.push(0x20);
        }
        let word = &cmd.args[i];
        let len = word.len();
        let ghost spaced = out@;
        let mut k: usize = 0;
        while k < len
            invariant
                k <= len,
                len == word@.len(),
                out@ == spaced + word@.subrange(0, k as int),
            decreases len - k,
        {
            out.push(word[k]);
            k = k + 1;
            assert(out@ =~= spaced + word@.subrange(0, k as int));
        }
        proof {
            assert(word@.subrange(0, len as int) =~= word@);
            let prefix = cmd@.subrange(0, i as int + 1);
            assert(prefix.drop_last() =~= cmd@.subrange(0, i as int));
            assert(prefix.last() == word@);
            if i == 1 {
                assert(before =~= Seq::<u8>::empty());
                assert(out@ =~= word@);
                assert(prefix[1] == word@);
            }
        }
        i = i + 1;
    }
    assert(cmd@.subrange(0, n as int) =~= cmd@);
    out
}

} // verus!
