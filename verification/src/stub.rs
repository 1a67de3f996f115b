//! The stub that PAExec starts in place of ffmpeg. It has no window; it starts
//! ffmpeg without one and passes key frame requests on to it.
use vstd::prelude::*;
use vstd::string::*;

use crate::elevate;
use crate::elevate::ElevatedView;
use crate::text;
use crate::utf16;

verus! {

// ---------------------------------------------------------------------------
// The command line of a Windows process
// ---------------------------------------------------------------------------

/// So many backslashes.
pub open spec fn slashes(n: nat) -> Seq<char> {
    Seq::new(n, |i: int| '\\')
}

/// How many backslashes a text ends with.
pub open spec fn trailing_slashes(s: Seq<char>) -> nat
    decreases s.len(),
{
    if s.len() > 0 && s.last() == '\\' {
        trailing_slashes(s.drop_last()) + 1
    } else {
        0
    }
}

/// An argument that would fall apart, or vanish, without quotes.
pub open spec fn needs_quotes(s: Seq<char>) -> bool {
    s.len() == 0 || s.contains('"') || s.contains(' ') || s.contains('\t')
}

/// An argument as it stands between quotes: a quote in it has a backslash before
/// it, and backslashes before a quote are doubled.
pub open spec fn escaped(s: Seq<char>) -> Seq<char>
    decreases s.len(),
{
    if s.len() == 0 {
        Seq::empty()
    } else {
        let front = s.drop_last();
        if s.last() == '"' {
            escaped(front) + slashes(trailing_slashes(front)) + seq!['\\', '"']
        } else {
            escaped(front).push(s.last())
        }
    }
}

/// An argument as it is written on the command line.
pub open spec fn quoted(s: Seq<char>) -> Seq<char> {
    if needs_quotes(s) {
        seq!['"'] + escaped(s) + slashes(trailing_slashes(s)) + seq!['"']
    } else {
        s
    }
}

fn push_slashes(out: &mut String, n: usize)
    ensures
        final(out)@ == old(out)@ + slashes(n as nat),
{
    let ghost start = out@;
    let mut i: usize = 0;
    assert(start + slashes(0) =~= start);
    while i < n
        invariant
            0 <= i <= n,
            out@ == start + slashes(i as nat),
        decreases n - i,
    {
        out.push('\\');
        i += 1;
        assert(out@ =~= start + slashes(i as nat));
    }
}

/// An argument as it is written on the command line.
pub fn quote_arg(arg: &str) -> (r: String)
    ensures
        r@ == quoted(arg@),
{
    let chars = text::to_chars(arg);
    if chars.len() > 0 && !text::has_char(chars.as_slice(), '"') && !text::has_char(
        chars.as_slice(),
        ' ',
    ) && !text::has_char(chars.as_slice(), '\t') {
        return arg.to_owned();
    }
    let mut out = String::new();
    out.push('"');
    let mut backslashes: usize = 0;
    let mut i: usize = 0;
    assert(out@ =~= seq!['"'] + escaped(chars@.take(0)));
    while i < chars.len()
        invariant
            0 <= i <= chars@.len(),
            backslashes == trailing_slashes(chars@.take(i as int)),
            backslashes <= i,
            out@ == seq!['"'] + escaped(chars@.take(i as int)),
        decreases chars@.len() - i,
    {
        let c: char = chars[i];
        let ghost front = chars@.take(i as int);
        let ghost upto = chars@.take(i + 1);
        assert(upto.drop_last() =~= front);
        assert(upto.last() == c);
        let ghost before = out@;
        if c == '\\' {
            backslashes += 1;
            out.push('\\');
        } else if c == '"' {
            push_slashes(&mut out, backslashes);
            out.push('\\');
            out.push('"');
            assert(out@ =~= before + slashes(backslashes as nat) + seq!['\\', '"']);
            backslashes = 0;
        } else {
            backslashes = 0;
            out.push(c);
        }
        assert(out@ =~= seq!['"'] + escaped(upto));
        i += 1;
    }
    assert(chars@.take(i as int) =~= chars@);
    push_slashes(&mut out, backslashes);
    out.push('"');
    assert(out@ =~= quoted(arg@));
    out
}

/// The arguments after the program on the command line, each after a space.
pub open spec fn argument_tail(args: Seq<Seq<char>>) -> Seq<char>
    decreases args.len(),
{
    if args.len() == 0 {
        Seq::empty()
    } else {
        argument_tail(args.drop_last()).push(' ') + quoted(args.last())
    }
}

/// The command line for a program and its arguments.
pub open spec fn command_line_of(program: Seq<char>, args: Seq<Seq<char>>) -> Seq<char> {
    quoted(program) + argument_tail(args)
}

/// The command line for a program and its arguments.
pub fn command_line(program: &str, args: &Vec<String>) -> (r: String)
    ensures
        r@ == command_line_of(program@, text::texts(args@)),
{
    let mut line = quote_arg(program);
    let ghost all = text::texts(args@);
    let mut i: usize = 0;
    assert(line@ =~= quoted(program@) + argument_tail(all.take(0)));
    while i < args.len()
        invariant
            0 <= i <= args@.len(),
            all == text::texts(args@),
            line@ == quoted(program@) + argument_tail(all.take(i as int)),
        decreases args@.len() - i,
    {
        assert(all.take(i + 1).drop_last() =~= all.take(i as int));
        assert(all.take(i + 1).last() == args@[i as int]@);
        let arg = quote_arg(args[i].as_str());
        line.push(' ');
        line.append(arg.as_str());
        i += 1;
        assert(line@ =~= quoted(program@) + argument_tail(all.take(i as int)));
    }
    assert(all.take(i as int) =~= all);
    line
}

/// The command line as Windows takes it: in UTF-16, with a zero at the end.
pub fn command_line_wide(program: &str, args: &Vec<String>) -> (r: Vec<u16>)
    ensures
        r@ == utf16::encoded(command_line_of(program@, text::texts(args@))).push(0),
{
    let line = command_line(program, args);
    let mut wide = utf16::to_utf16(line.as_str());
    wide.push(0);
    wide
}

// ---------------------------------------------------------------------------
// Passing key frame requests on
// ---------------------------------------------------------------------------

/// How long to wait before connecting again.
pub const RELAY_RETRY_MILLIS: u64 = 200;

/// The port and the path that the first two arguments of the stub tell, where
/// they tell of requests to pass on.
pub open spec fn relay_of(port: Option<Seq<char>>, path: Option<Seq<char>>) -> Option<
    (nat, Seq<char>),
> {
    match (port, path) {
        (Some(port), Some(path)) => match text::parsed(port, u16::MAX as nat) {
            Some(n) => if n != 0 && path.len() > 0 {
                Some((n, path))
            } else {
                None
            },
            None => None,
        },
        _ => None,
    }
}

/// The port to connect to for requests and the path to pass them on to, from the
/// first two arguments of the stub. An argument that is missing, or no text, is
/// `None`.
pub fn relay_plan(port: Option<&str>, path: Option<&str>) -> (r: Option<(u16, String)>)
    ensures
        ({
            let expected = relay_of(
                match port {
                    Some(s) => Some(s@),
                    None => None,
                },
                match path {
                    Some(s) => Some(s@),
                    None => None,
                },
            );
            match r {
                Some((n, p)) => expected == Some((n as nat, p@)),
                None => expected is None,
            }
        }),
{
    match (port, path) {
        (Some(port), Some(path)) => {
            let number = text::parse_number(text::to_chars(port).as_slice(), u16::MAX as u64);
            match number {
                Some(n) => if n != 0 && text::to_chars(path).len() > 0 {
                    Some((n as u16, path.to_owned()))
                } else {
                    None
                },
                None => None,
            }
        },
        _ => None,
    }
}

/// What came of the last action while requests are passed on.
#[derive(Debug, Clone, Copy, PartialEq, Eq, Structural)]
pub enum RelayEvent {
    /// Whether the connection was made.
    Connected(bool),
    /// The wait is over.
    Waited,
    /// So many bytes were read.
    Read(usize),
    /// The connection failed.
    ReadFailed,
    /// The bytes were passed on, or could not be.
    Forwarded,
}

/// What is to be done next to pass requests on.
#[derive(Debug, Clone, Copy, PartialEq, Eq, Structural)]
pub enum RelayAction {
    Connect,
    Wait,
    Read,
    /// Pass so many bytes on.
    Forward(usize),
}

/// The next action. A connection that ends or fails is made again, without end;
/// only one that could not be made is waited for.
pub open spec fn relay_after(event: RelayEvent) -> RelayAction {
    match event {
        RelayEvent::Connected(true) => RelayAction::Read,
        RelayEvent::Connected(false) => RelayAction::Wait,
        RelayEvent::Waited => RelayAction::Connect,
        RelayEvent::Read(n) => if n == 0 {
            RelayAction::Connect
        } else {
            RelayAction::Forward(n)
        },
        RelayEvent::ReadFailed => RelayAction::Connect,
        RelayEvent::Forwarded => RelayAction::Read,
    }
}

/// The next action. A connection that ends or fails is made again, without end;
/// only one that could not be made is waited for.
pub fn relay_step(event: RelayEvent) -> (r: RelayAction)
    ensures
        r == relay_after(event),
        r == (match event {
            RelayEvent::Connected(true) => RelayAction::Read,
            RelayEvent::Connected(false) => RelayAction::Wait,
            RelayEvent::Waited => RelayAction::Connect,
            RelayEvent::Read(n) => if n == 0 {
                RelayAction::Connect
            } else {
                RelayAction::Forward(n)
            },
            RelayEvent::ReadFailed => RelayAction::Connect,
            RelayEvent::Forwarded => RelayAction::Read,
        }),
{
    match event {
        RelayEvent::Connected(made) => if made {
            RelayAction::Read
        } else {
            RelayAction::Wait
        },
        RelayEvent::Waited => RelayAction::Connect,
        RelayEvent::Read(n) => if n == 0 {
            RelayAction::Connect
        } else {
            RelayAction::Forward(n)
        },
        RelayEvent::ReadFailed => RelayAction::Connect,
        RelayEvent::Forwarded => RelayAction::Read,
    }
}

// ---------------------------------------------------------------------------
// How a Windows process takes its command line apart
// ---------------------------------------------------------------------------

/// The arguments found so far, and the one being read.
#[verifier::ext_equal]
pub struct Splitting {
    pub args: Seq<Seq<char>>,
    /// The argument being read, without the backslashes read last.
    pub word: Option<Seq<char>>,
    pub slashes: nat,
    /// Between quotes.
    pub quoted: bool,
}

impl Splitting {
    pub open spec fn fresh() -> Splitting {
        Splitting { args: Seq::empty(), word: None, slashes: 0, quoted: false }
    }

    /// The text of the argument being read, without the backslashes read last.
    pub open spec fn text(self) -> Seq<char> {
        match self.word {
            Some(w) => w,
            None => Seq::empty(),
        }
    }

    /// One more character. Backslashes are taken as they are, except before a
    /// quote: there each pair of them is one, and a single one left over makes
    /// the quote a part of the argument. Other quotes switch between parts where
    /// whitespace ends an argument and parts where it does not.
    pub open spec fn take(self, c: char) -> Splitting {
        if c == '\\' {
            Splitting { word: Some(self.text()), slashes: self.slashes + 1, ..self }
        } else if c == '"' {
            let w = self.text() + slashes(self.slashes / 2);
            if self.slashes % 2 == 1 {
                Splitting { word: Some(w.push('"')), slashes: 0, ..self }
            } else {
                Splitting { word: Some(w), slashes: 0, quoted: !self.quoted, ..self }
            }
        } else if (c == ' ' || c == '\t') && !self.quoted {
            Splitting { args: self.found(), word: None, slashes: 0, ..self }
        } else {
            Splitting {
                word: Some((self.text() + slashes(self.slashes)).push(c)),
                slashes: 0,
                ..self
            }
        }
    }

    /// All arguments, if the line ends here.
    pub open spec fn found(self) -> Seq<Seq<char>> {
        match self.word {
            Some(w) => self.args.push(w + slashes(self.slashes)),
            None => self.args,
        }
    }

    pub open spec fn take_all(self, line: Seq<char>) -> Splitting
        decreases line.len(),
    {
        if line.len() == 0 {
            self
        } else {
            self.take_all(line.drop_last()).take(line.last())
        }
    }
}

/// The program's name at the head of a line and the rest of the line. In the
/// name, backslashes have no meaning of their own.
#[verifier::ext_equal]
pub struct Head {
    pub name: Seq<char>,
    pub quoted: bool,
    pub rest: Option<Seq<char>>,
}

impl Head {
    pub open spec fn fresh() -> Head {
        Head { name: Seq::empty(), quoted: false, rest: None }
    }

    pub open spec fn take(self, c: char) -> Head {
        match self.rest {
            Some(r) => Head { rest: Some(r.push(c)), ..self },
            None => if c == '"' {
                Head { quoted: !self.quoted, ..self }
            } else if (c == ' ' || c == '\t') && !self.quoted {
                Head { rest: Some(Seq::empty()), ..self }
            } else {
                Head { name: self.name.push(c), ..self }
            },
        }
    }

    pub open spec fn take_all(self, line: Seq<char>) -> Head
        decreases line.len(),
    {
        if line.len() == 0 {
            self
        } else {
            self.take_all(line.drop_last()).take(line.last())
        }
    }
}

/// The program and the arguments that a process finds on its command line.
pub open spec fn read_back(line: Seq<char>) -> (Seq<char>, Seq<Seq<char>>) {
    let head = Head::fresh().take_all(line);
    (
        head.name,
        match head.rest {
            Some(rest) => Splitting::fresh().take_all(rest).found(),
            None => Seq::empty(),
        },
    )
}

proof fn lemma_take_both(st: Splitting, a: Seq<char>, b: Seq<char>)
    ensures
        st.take_all(a + b) == st.take_all(a).take_all(b),
    decreases b.len(),
{
    if b.len() == 0 {
        assert(a + b =~= a);
    } else {
        assert((a + b).drop_last() =~= a + b.drop_last());
        lemma_take_both(st, a, b.drop_last());
    }
}

proof fn lemma_take_one(st: Splitting, c: char)
    ensures
        st.take_all(seq![c]) == st.take(c),
{
    assert(seq![c].drop_last() =~= Seq::<char>::empty());
    assert(st.take_all(Seq::<char>::empty()) == st);
}

proof fn lemma_take_slashes(st: Splitting, n: nat)
    requires
        st.word is Some,
    ensures
        st.take_all(slashes(n)) == (Splitting { slashes: st.slashes + n, ..st }),
    decreases n,
{
    if n == 0 {
        assert(slashes(0) =~= Seq::<char>::empty());
    } else {
        assert(slashes(n).drop_last() =~= slashes((n - 1) as nat));
        lemma_take_slashes(st, (n - 1) as nat);
    }
}

/// Reading what stands between the quotes gives the argument.
proof fn lemma_escaped(st: Splitting, s: Seq<char>)
    requires
        st.word == Some(Seq::<char>::empty()),
        st.slashes == 0,
        st.quoted,
    ensures
        ({
            let after = st.take_all(escaped(s));
            &&& after.args == st.args
            &&& after.quoted
            &&& after.word is Some
            &&& after.slashes == trailing_slashes(s)
            &&& after.text() + slashes(after.slashes) == s
        }),
    decreases s.len(),
{
    if s.len() == 0 {
        assert(Seq::<char>::empty() + slashes(0) =~= s);
    } else {
        let front = s.drop_last();
        lemma_escaped(st, front);
        let mid = st.take_all(escaped(front));
        let t = trailing_slashes(front);
        assert(s =~= front.push(s.last()));
        if s.last() == '"' {
            lemma_take_both(st, escaped(front), slashes(t));
            lemma_take_slashes(mid, t);
            let doubled = mid.take_all(slashes(t));
            let head = escaped(front) + slashes(t);
            assert(escaped(s) =~= head.push('\\').push('"'));
            assert(head.push('\\').push('"').drop_last() =~= head.push('\\'));
            assert(head.push('\\').drop_last() =~= head);
            assert(st.take_all(head.push('\\')) == doubled.take('\\'));
            assert(st.take_all(escaped(s)) == doubled.take('\\').take('"'));
            assert((2 * t + 1) / 2 == t);
            assert((2 * t + 1) % 2 == 1);
            let after = st.take_all(escaped(s));
            assert(after.text() + slashes(0) =~= front.push('"'));
        } else {
            assert(escaped(s).drop_last() =~= escaped(front));
            let after = st.take_all(escaped(s));
            assert(after == mid.take(s.last()));
            if s.last() == '\\' {
                assert(mid.text() + slashes(t + 1) =~= (mid.text() + slashes(t)).push('\\'));
            } else {
                assert(after.text() + slashes(0) =~= front.push(s.last()));
            }
        }
    }
}

/// Reading an argument that needs no quotes gives the argument.
proof fn lemma_bare(st: Splitting, s: Seq<char>)
    requires
        st.word is None,
        st.slashes == 0,
        !st.quoted,
        s.len() > 0,
        !s.contains('"'),
        !s.contains(' '),
        !s.contains('\t'),
    ensures
        ({
            let after = st.take_all(s);
            &&& after.args == st.args
            &&& !after.quoted
            &&& after.word is Some
            &&& after.text() + slashes(after.slashes) == s
        }),
    decreases s.len(),
{
    let front = s.drop_last();
    let c = s.last();
    assert(s.contains(c));
    assert(s =~= front.push(c));
    if front.len() == 0 {
        assert(st.take_all(front) == st);
        let after = st.take_all(s);
        assert(after == st.take(c));
        assert(after.text() + slashes(after.slashes) =~= s);
    } else {
        assert forall|x: char| front.contains(x) implies s.contains(x) by {
            let i = choose|i: int| 0 <= i < front.len() && front[i] == x;
            assert(s[i] == x);
        }
        lemma_bare(st, front);
        let mid = st.take_all(front);
        let after = st.take_all(s);
        assert(after == mid.take(c));
        if c == '\\' {
            assert(mid.text() + slashes(mid.slashes + 1) =~= (mid.text() + slashes(
                mid.slashes,
            )).push('\\'));
        } else {
            assert(after.text() + slashes(0) =~= front.push(c));
        }
    }
}

/// Reading an argument as it is written gives the argument.
proof fn lemma_quoted(st: Splitting, s: Seq<char>)
    requires
        st.word is None,
        st.slashes == 0,
        !st.quoted,
    ensures
        ({
            let after = st.take_all(quoted(s));
            &&& after.args == st.args
            &&& !after.quoted
            &&& after.word is Some
            &&& after.text() + slashes(after.slashes) == s
        }),
{
    if needs_quotes(s) {
        let t = trailing_slashes(s);
        let open = seq!['"'];
        let begun = st.take('"');
        lemma_take_one(st, '"');
        assert(slashes(0) =~= Seq::<char>::empty());
        assert(begun.word == Some(Seq::<char>::empty())) by {
            assert(st.text() + slashes(0) =~= Seq::<char>::empty());
        }
        lemma_escaped(begun, s);
        let inner = begun.take_all(escaped(s));
        lemma_take_both(st, open, escaped(s));
        lemma_take_slashes(inner, t);
        lemma_take_both(st, open + escaped(s), slashes(t));
        let doubled = inner.take_all(slashes(t));
        lemma_take_both(st, open + escaped(s) + slashes(t), open);
        lemma_take_one(doubled, '"');
        assert((2 * t) / 2 == t);
        assert((2 * t) % 2 == 0);
        let after = st.take_all(quoted(s));
        assert(after == doubled.take('"'));
        assert(after.text() + slashes(0) =~= s);
    } else {
        lemma_bare(st, s);
    }
}

/// Reading the arguments behind the program gives the arguments.
proof fn lemma_tail(args: Seq<Seq<char>>)
    ensures
        ({
            let after = Splitting::fresh().take_all(argument_tail(args));
            &&& !after.quoted
            &&& after.found() == args
            &&& after.word is None ==> after.slashes == 0
        }),
    decreases args.len(),
{
    let st = Splitting::fresh();
    if args.len() > 0 {
        let front = args.drop_last();
        lemma_tail(front);
        let before = argument_tail(front);
        let mid = st.take_all(before);
        assert(before.push(' ').drop_last() =~= before);
        let spaced = st.take_all(before.push(' '));
        assert(spaced == mid.take(' '));
        lemma_take_both(st, before.push(' '), quoted(args.last()));
        lemma_quoted(spaced, args.last());
        assert(spaced.args == front);
        assert(args =~= front.push(args.last()));
    }
}

proof fn lemma_head_both(h: Head, a: Seq<char>, b: Seq<char>)
    ensures
        h.take_all(a + b) == h.take_all(a).take_all(b),
    decreases b.len(),
{
    if b.len() == 0 {
        assert(a + b =~= a);
    } else {
        assert((a + b).drop_last() =~= a + b.drop_last());
        lemma_head_both(h, a, b.drop_last());
    }
}

proof fn lemma_head_one(h: Head, c: char)
    ensures
        h.take_all(seq![c]) == h.take(c),
{
    assert(seq![c].drop_last() =~= Seq::<char>::empty());
    assert(h.take_all(Seq::<char>::empty()) == h);
}

/// A part of the program's name without quotes is taken as it is, between quotes
/// or where it holds no whitespace.
proof fn lemma_head_plain(h: Head, s: Seq<char>)
    requires
        h.rest is None,
        !s.contains('"'),
        h.quoted || !s.contains(' ') && !s.contains('\t'),
    ensures
        h.take_all(s) == (Head { name: h.name + s, ..h }),
    decreases s.len(),
{
    if s.len() == 0 {
        assert(h.name + s =~= h.name);
    } else {
        let front = s.drop_last();
        assert(s.contains(s.last()));
        assert forall|x: char| front.contains(x) implies s.contains(x) by {
            let i = choose|i: int| 0 <= i < front.len() && front[i] == x;
            assert(s[i] == x);
        }
        lemma_head_plain(h, front);
        assert((h.name + front).push(s.last()) =~= h.name + s);
    }
}

proof fn lemma_escaped_plain(s: Seq<char>)
    requires
        !s.contains('"'),
    ensures
        escaped(s) == s,
    decreases s.len(),
{
    if s.len() > 0 {
        let front = s.drop_last();
        assert(s.contains(s.last()));
        assert forall|x: char| front.contains(x) implies s.contains(x) by {
            let i = choose|i: int| 0 <= i < front.len() && front[i] == x;
            assert(s[i] == x);
        }
        lemma_escaped_plain(front);
        assert(escaped(s) =~= s);
    }
}

proof fn lemma_rest(h: Head, s: Seq<char>)
    requires
        h.rest is Some,
    ensures
        h.take_all(s) == (Head { rest: Some(h.rest->0 + s), ..h }),
    decreases s.len(),
{
    if s.len() == 0 {
        assert(h.rest->0 + s =~= h.rest->0);
    } else {
        lemma_rest(h, s.drop_last());
        assert((h.rest->0 + s.drop_last()).push(s.last()) =~= h.rest->0 + s);
    }
}

proof fn lemma_tail_begins(args: Seq<Seq<char>>)
    requires
        args.len() > 0,
    ensures
        argument_tail(args).len() > 0,
        argument_tail(args)[0] == ' ',
    decreases args.len(),
{
    if args.len() > 1 {
        lemma_tail_begins(args.drop_last());
        assert(argument_tail(args)[0] == argument_tail(args.drop_last())[0]);
    } else {
        assert(argument_tail(args.drop_last()) =~= Seq::<char>::empty());
        assert(argument_tail(args)[0] == ' ');
    }
}

/// A process finds on its command line the program and the arguments that the
/// line was made for, whatever the arguments hold. A program's path holds no
/// quote, and does not both need quotes and end with a backslash.
pub proof fn command_line_reads_back(program: Seq<char>, args: Seq<Seq<char>>)
    requires
        !program.contains('"'),
        needs_quotes(program) ==> trailing_slashes(program) == 0,
    ensures
        read_back(command_line_of(program, args)) == (program, args),
{
    let h = Head::fresh();
    let tail = argument_tail(args);
    let q = quoted(program);
    assert(h.take_all(q) == (Head { name: program, ..h })) by {
        if needs_quotes(program) {
            let open = seq!['"'];
            lemma_escaped_plain(program);
            assert(q =~= open + program + open);
            lemma_head_one(h, '"');
            let begun = h.take_all(open);
            lemma_head_both(h, open, program);
            lemma_head_plain(begun, program);
            lemma_head_both(h, open + program, open);
            let inner = h.take_all(open + program);
            lemma_head_one(inner, '"');
            assert(Seq::<char>::empty() + program =~= program);
        } else {
            lemma_head_plain(h, program);
            assert(Seq::<char>::empty() + program =~= program);
        }
    }
    lemma_head_both(h, q, tail);
    let named = h.take_all(q);
    if args.len() == 0 {
        assert(tail =~= Seq::<char>::empty());
        assert(read_back(command_line_of(program, args)).1 =~= args);
    } else {
        lemma_tail_begins(args);
        let rest = tail.skip(1);
        assert(tail =~= seq![' '] + rest);
        lemma_head_both(named, seq![' '], rest);
        lemma_head_one(named, ' ');
        let spaced = named.take_all(seq![' ']);
        lemma_rest(spaced, rest);
        assert(Seq::<char>::empty() + rest =~= rest);
        let st = Splitting::fresh();
        lemma_take_both(st, seq![' '], rest);
        lemma_take_one(st, ' ');
        assert(st.take(' ') =~= st);
        lemma_tail(args);
    }
}

/// What PAExec passes to the stub is what the stub takes: behind the stub come
/// the port and the path for key frame requests, and then the program with its
/// arguments. Requests are passed on unless the port is zero or the path empty.
pub proof fn stub_takes_what_is_passed(args: Seq<Seq<char>>, port: u16, path: Seq<char>)
    ensures
        ({
            let list = elevate::elevated_arguments(args, port, path);
            let number = text::decimal(port as nat);
            &&& list.len() == 8 + args.len()
            &&& list[4] == ElevatedView::Stub
            &&& list[5] == ElevatedView::Text(number)
            &&& list[6] == ElevatedView::Text(path)
            &&& list[7] == ElevatedView::Program
            &&& list.skip(8) == elevate::text_views(args)
            &&& relay_of(Some(number), Some(path)) == if port != 0 && path.len() > 0 {
                Some((port as nat, path))
            } else {
                None
            }
        }),
{
    text::decimal_reads_back(port as nat, u16::MAX as nat);
    let list = elevate::elevated_arguments(args, port, path);
    assert(list.skip(8) =~= elevate::text_views(args));
}

/// All bytes that are read are passed on, and nothing else is. The stub reads on
/// after each, and where the connection ends, fails or cannot be made it is made
/// again, however often.
pub proof fn requests_are_passed_on_without_end(event: RelayEvent, n: usize)
    ensures
        relay_after(event) == RelayAction::Forward(n) ==> event == RelayEvent::Read(n) && n > 0,
        n > 0 ==> relay_after(RelayEvent::Read(n)) == RelayAction::Forward(n),
        relay_after(RelayEvent::Forwarded) == RelayAction::Read,
        relay_after(RelayEvent::Connected(true)) == RelayAction::Read,
        relay_after(event) == RelayAction::Wait <==> event == RelayEvent::Connected(false),
        relay_after(event) == RelayAction::Connect <==> event == RelayEvent::Waited || event
            == RelayEvent::ReadFailed || event == RelayEvent::Read(0),
{
}

/// Requests are passed on only to a path that is not empty, from a port that is
/// not zero and that the first argument spells out.
pub proof fn requests_need_a_port_and_a_path(port: Option<Seq<char>>, path: Option<Seq<char>>)
    ensures
        relay_of(port, path) matches Some((n, p)) ==> 0 < n <= 65535 && p.len() > 0 && path == Some(
            p,
        ) && port is Some && text::parsed(port->0, 65535) == Some(n),
        relay_of(None, path) is None,
        relay_of(port, None) is None,
{
}

/// An argument is put in quotes exactly if it is empty or holds a space, a tab
/// or a quote; any other stands as it is.
pub proof fn plain_arguments_stand_as_they_are(arg: Seq<char>)
    ensures
        quoted(arg) == arg <==> arg.len() > 0 && !arg.contains(' ') && !arg.contains('\t')
            && !arg.contains('"'),
{
    if needs_quotes(arg) && quoted(arg) == arg {
        lemma_escaped_grows(arg);
        assert(quoted(arg).len() == 2 + escaped(arg).len() + trailing_slashes(arg));
    }
}

proof fn lemma_escaped_grows(s: Seq<char>)
    ensures
        escaped(s).len() >= s.len(),
    decreases s.len(),
{
    if s.len() > 0 {
        lemma_escaped_grows(s.drop_last());
    }
}

} // verus!
