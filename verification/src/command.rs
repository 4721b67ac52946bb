//! The command addressing grammar: `[<host>@]<local-command>`.
//!
//! A text without `@` must exactly match the local-command vocabulary.  A text
//! with `@` is split at the *first* occurrence: the left part must match the
//! vocabulary, the whole remainder — further `@` characters included — is
//! handed to the peer-address parser.  Display is the exact inverse.

use vstd::prelude::*;
use vstd::string::*;

verus! {

/// The fixed vocabulary of leaf operations a peer may run locally.
#[derive(Clone, Copy, PartialEq, Eq, Hash, Debug, Structural)]
pub enum LocalCommand {
    Echo,
    Date,
}

/// Why a command text was rejected.
#[derive(Clone, PartialEq, Eq, Debug)]
pub enum InvalidCommand {
    /// The (sub)text that should have named a local command matches nothing
    /// in the vocabulary; carries that text.
    Unrecognized(String),
    /// The remainder after the first `@` is not a well-formed peer address;
    /// carries that remainder.
    RemoteAddr(String),
}

/// The canonical text of a local command.
pub open spec fn local_text(c: LocalCommand) -> Seq<char> {
    match c {
        LocalCommand::Echo => "echo"@,
        LocalCommand::Date => "date"@,
    }
}

/// The local command a text names, if any; matching is exact and
/// case-sensitive.
pub open spec fn local_parse(s: Seq<char>) -> Option<LocalCommand> {
    if s == "echo"@ {
        Some(LocalCommand::Echo)
    } else if s == "date"@ {
        Some(LocalCommand::Date)
    } else {
        None
    }
}

/// Whether the peer-address parser of the secure-channel stack accepts `s` as
/// a hop address.  Named, not restated: the address grammar (key encoding,
/// host forms, optional port) belongs to the outside library.
pub uninterp spec fn is_host_text(s: Seq<char>) -> bool;

/// Relies on cyphernet's `PeerAddr::<ed25519::PublicKey, PartialAddr<HostName,
/// 3232>>` `FromStr` impl: whether a text is a well-formed
/// `<key>@<host>[:<port>]` peer address is a function of the characters alone.
#[verifier::external_body]
fn check_host_text(s: &str) -> (r: bool)
    ensures
        r == is_host_text(s@),
{
    <cyphernet::addr::PeerAddr<
        cyphernet::ed25519::PublicKey,
        cyphernet::addr::PartialAddr<cyphernet::addr::HostName, 3232>,
    > as std::str::FromStr>::from_str(s).is_ok()
}

/// A hop target: the textual peer address that the outside address parser
/// accepted, kept verbatim, so that displaying it is the exact inverse of
/// parsing it.
#[derive(Clone, PartialEq, Eq, Hash, Debug)]
pub struct RemoteHost {
    text: String,
}

impl View for RemoteHost {
    type V = Seq<char>;

    closed spec fn view(&self) -> Seq<char> {
        self.text@
    }
}

impl RemoteHost {
    /// A value of this type always came out of a successful address check.
    pub open spec fn wf(&self) -> bool {
        is_host_text(self@)
    }

    /// Accepts exactly the texts the peer-address parser accepts, and keeps
    /// the accepted text verbatim.
    pub fn from_str(s: &str) -> (r: Result<RemoteHost, InvalidCommand>)
        ensures
            r is Ok <==> is_host_text(s@),
            match r {
                Ok(h) => h@ == s@ && h.wf(),
                Err(e) => match e {
                    InvalidCommand::RemoteAddr(t) => t@ == s@ && !is_host_text(s@),
                    _ => false,
                },
            },
    {
        if check_host_text(s) {
            Ok(RemoteHost { text: String::from_str(s) })
        } else {
            Err(InvalidCommand::RemoteAddr(String::from_str(s)))
        }
    }

    /// The address text, verbatim.
    pub fn as_str(&self) -> (r: &str)
        ensures
            r@ == self@,
    {
        self.text.as_str()
    }
}

/// A parsed request: one local operation, or a one-level forward of one local
/// operation to a named hop.  Multi-hop chains arise from each hop re-parsing
/// and re-dialing, not from a recursive structure here.
#[derive(Clone, PartialEq, Eq, Hash, Debug)]
pub enum Command {
    Execute { command: LocalCommand },
    Forward { hop: RemoteHost, command: LocalCommand },
}

/// No `@` anywhere in `s`.
pub open spec fn at_free(s: Seq<char>) -> bool {
    forall|j: int| 0 <= j < s.len() ==> s[j] != '@'
}

/// `i` is the index of the first `@` in `s`.
pub open spec fn first_at(s: Seq<char>, i: int) -> bool {
    &&& 0 <= i < s.len()
    &&& s[i] == '@'
    &&& forall|j: int| 0 <= j < i ==> s[j] != '@'
}

/// The canonical text of a command: `command` or `command@host`.
pub open spec fn command_text(c: Command) -> Seq<char> {
    match c {
        Command::Execute { command } => local_text(command),
        Command::Forward { hop, command } => local_text(command).push('@') + hop@,
    }
}

/// The parsing relation: `s` is a text for the command value `c`.
pub open spec fn parses_to(s: Seq<char>, c: Command) -> bool {
    match c {
        Command::Execute { command } => at_free(s) && local_parse(s) == Some(command),
        Command::Forward { hop, command } => exists|i: int|
            {
                &&& #[trigger] first_at(s, i)
                &&& local_parse(s.take(i)) == Some(command)
                &&& hop@ == s.skip(i + 1)
                &&& is_host_text(hop@)
            },
    }
}

/// The texts on which parsing is owed a success.
pub open spec fn can_parse(s: Seq<char>) -> bool {
    ||| (at_free(s) && local_parse(s) is Some)
    ||| (exists|i: int|
        #[trigger] first_at(s, i) && is_host_text(s.skip(i + 1)) && local_parse(s.take(i))
            is Some)
}

/// The first `@` of a text is unique.
pub proof fn lemma_first_at_unique(s: Seq<char>, i: int, j: int)
    requires
        first_at(s, i),
        first_at(s, j),
    ensures
        i == j,
{
    if i < j {
        assert(s[i] != '@');
    } else if j < i {
        assert(s[j] != '@');
    }
}

impl LocalCommand {
    /// Exact, case-sensitive match against the vocabulary; anything else is
    /// `Unrecognized`, carrying the offending text.
    pub fn from_str(s: &str) -> (r: Result<LocalCommand, InvalidCommand>)
        ensures
            r is Ok <==> local_parse(s@) is Some,
            match r {
                Ok(c) => local_parse(s@) == Some(c),
                Err(e) => match e {
                    InvalidCommand::Unrecognized(t) => t@ == s@ && local_parse(s@) is None,
                    _ => false,
                },
            },
    {
        if str_eq(s, "echo") {
            Ok(LocalCommand::Echo)
        } else if str_eq(s, "date") {
            Ok(LocalCommand::Date)
        } else {
            Err(InvalidCommand::Unrecognized(String::from_str(s)))
        }
    }

    /// The canonical lower-case text of this command.
    pub fn display(&self) -> (r: String)
        ensures
            r@ == local_text(*self),
    {
        match self {
            LocalCommand::Echo => String::from_str("echo"),
            LocalCommand::Date => String::from_str("date"),
        }
    }
}

impl Command {
    /// A command value whose hop — if it has one — came out of a successful
    /// address check.
    pub open spec fn wf(&self) -> bool {
        match self {
            Command::Execute { .. } => true,
            Command::Forward { hop, .. } => hop.wf(),
        }
    }

    /// Parses `[host@]command`: without `@` the whole text must match the
    /// vocabulary; with `@` the text left of the first one must match the
    /// vocabulary and the whole remainder must be a peer address.  The
    /// remainder is checked first, as the errors reflect.
    pub fn from_str(s: &str) -> (r: Result<Command, InvalidCommand>)
        ensures
            r is Ok <==> can_parse(s@),
            match r {
                Ok(c) => parses_to(s@, c) && c.wf(),
                Err(e) => match e {
                    InvalidCommand::Unrecognized(t) => {
                        ||| (at_free(s@) && local_parse(s@) is None && t@ == s@)
                        ||| (exists|i: int|
                            #[trigger] first_at(s@, i) && is_host_text(s@.skip(i + 1))
                                && local_parse(s@.take(i)) is None && t@ == s@.take(i))
                    },
                    InvalidCommand::RemoteAddr(t) => exists|i: int|
                        #[trigger] first_at(s@, i) && !is_host_text(s@.skip(i + 1)) && t@
                            == s@.skip(i + 1),
                },
            },
    {
        match find_at(s) {
            None => match LocalCommand::from_str(s) {
                Ok(command) => Ok(Command::Execute { command }),
                Err(e) => {
                    proof {
                        if can_parse(s@) {
                            let w = choose|w: int|
                                #[trigger] first_at(s@, w) && is_host_text(s@.skip(w + 1))
                                    && local_parse(s@.take(w)) is Some;
                            assert(s@[w] != '@');
                        }
                    }
                    Err(e)
                },
            },
            Some(i) => {
                let n = s.unicode_len();
                let left = s.substring_char(0, i);
                let right = s.substring_char(i + 1, n);
                proof {
                    assert(left@ =~= s@.take(i as int));
                    assert(right@ =~= s@.skip(i as int + 1));
                }
                match RemoteHost::from_str(right) {
                    Err(e) => {
                        proof {
                            if can_parse(s@) {
                                assert(s@[i as int] == '@');
                                let w = choose|w: int|
                                    #[trigger] first_at(s@, w) && is_host_text(s@.skip(w + 1))
                                        && local_parse(s@.take(w)) is Some;
                                lemma_first_at_unique(s@, i as int, w);
                            }
                        }
                        Err(e)
                    },
                    Ok(hop) => match LocalCommand::from_str(left) {
                        Err(e) => {
                            proof {
                                if can_parse(s@) {
                                    assert(s@[i as int] == '@');
                                    let w = choose|w: int|
                                        #[trigger] first_at(s@, w) && is_host_text(s@.skip(w + 1))
                                            && local_parse(s@.take(w)) is Some;
                                    lemma_first_at_unique(s@, i as int, w);
                                }
                            }
                            Err(e)
                        },
                        Ok(command) => {
                            proof {
                                assert(first_at(s@, i as int));
                                assert(local_parse(s@.take(i as int)) == Some(command));
                                assert(hop@ == s@.skip(i as int + 1));
                                assert(is_host_text(hop@));
                            }
                            Ok(Command::Forward { hop, command })
                        },
                    },
                }
            },
        }
    }

    /// The canonical text of this command; the exact inverse of parsing.
    pub fn display(&self) -> (r: String)
        ensures
            r@ == command_text(*self),
    {
        match self {
            Command::Execute { command } => command.display(),
            Command::Forward { hop, command } => {
                let mut out = command.display();
                out.append("@");
                out.append(hop.as_str());
                proof {
                    reveal_strlit("@");
                    assert(("@"@).len() == 1);
                    assert(("@"@)[0] == '@');
                    assert(local_text(*command) + "@"@ + hop@ =~= command_text(*self));
                }
                out
            },
        }
    }
}

/// Character-exact string comparison.
fn str_eq(a: &str, b: &str) -> (r: bool)
    ensures
        r == (a@ == b@),
{
    let n = a.unicode_len();
    if n != b.unicode_len() {
        return false;
    }
    let mut k: usize = 0;
    while k < n
        invariant
            0 <= k <= n,
            n == a@.len(),
            n == b@.len(),
            forall|j: int| 0 <= j < k ==> a@[j] == b@[j],
        decreases n - k,
    {
        if a.get_char(k) != b.get_char(k) {
            return false;
        }
        k += 1;
    }
    proof {
        assert(a@ =~= b@);
    }
    true
}

/// The index of the first `@`, if the text has one.
fn find_at(s: &str) -> (r: Option<usize>)
    ensures
        match r {
            Some(i) => first_at(s@, i as int),
            None => at_free(s@),
        },
{
    let n = s.unicode_len();
    let mut k: usize = 0;
    while k < n
        invariant
            0 <= k <= n,
            n == s@.len(),
            forall|j: int| 0 <= j < k ==> s@[j] != '@',
        decreases n - k,
    {
        if s.get_char(k) == '@' {
            return Some(k);
        }
        k += 1;
    }
    None
}

/// Round-trip law, existence half: the canonical text of any well-formed
/// command value parses back to that value.
pub proof fn lemma_parse_display(c: Command)
    requires
        c.wf(),
    ensures
        parses_to(command_text(c), c),
{
    reveal_strlit("echo");
    reveal_strlit("date");
    assert(("echo"@).len() == 4);
    assert(("date"@).len() == 4);
    lemma_vocabulary_at_free(LocalCommand::Echo);
    lemma_vocabulary_at_free(LocalCommand::Date);
    assert(("date"@)[0] == 'd' && ("echo"@)[0] == 'e');
    assert("date"@ != "echo"@);
    match c {
        Command::Execute { command } => {
            assert(local_parse(local_text(command)) == Some(command));
        },
        Command::Forward { hop, command } => {
            let s = command_text(c);
            let w = local_text(command).len() as int;
            assert(s[w] == '@');
            assert(forall|j: int| 0 <= j < w ==> s[j] == local_text(command)[j]);
            assert(first_at(s, w));
            assert(s.take(w) =~= local_text(command));
            assert(local_parse(s.take(w)) == Some(command));
            assert(hop@ =~= s.skip(w + 1));
        },
    }
}

/// No `@` occurs in any vocabulary word.
proof fn lemma_vocabulary_at_free(c: LocalCommand)
    ensures
        at_free(local_text(c)),
{
    reveal_strlit("echo");
    reveal_strlit("date");
    assert(("echo"@).len() == 4);
    assert(("echo"@)[0] == 'e' && ("echo"@)[1] == 'c' && ("echo"@)[2] == 'h' && ("echo"@)[3]
        == 'o');
    assert(("date"@).len() == 4);
    assert(("date"@)[0] == 'd' && ("date"@)[1] == 'a' && ("date"@)[2] == 't' && ("date"@)[3]
        == 'e');
}

/// Round-trip law: the canonical text of any well-formed command value
/// parses back to that value and to nothing else — any parse of `display(c)`
/// agrees with `c` on the variant, the local command, and the hop text.
pub proof fn lemma_round_trip(c: Command, d: Command)
    requires
        c.wf(),
        parses_to(command_text(c), d),
    ensures
        match (c, d) {
            (Command::Execute { command: a }, Command::Execute { command: b }) => a == b,
            (
                Command::Forward { hop: h1, command: a },
                Command::Forward { hop: h2, command: b },
            ) => a == b && h1@ == h2@,
            _ => false,
        },
{
    lemma_parse_display(c);
    lemma_parse_unambiguous(command_text(c), c, d);
}

/// Round-trip law, uniqueness half: a text determines the parsed command up
/// to the textual identity of the hop — the equality the grammar can observe.
pub proof fn lemma_parse_unambiguous(s: Seq<char>, c1: Command, c2: Command)
    requires
        parses_to(s, c1),
        parses_to(s, c2),
    ensures
        match (c1, c2) {
            (Command::Execute { command: a }, Command::Execute { command: b }) => a == b,
            (
                Command::Forward { hop: h1, command: a },
                Command::Forward { hop: h2, command: b },
            ) => a == b && h1@ == h2@,
            _ => false,
        },
{
    match (c1, c2) {
        (Command::Execute { command: a }, Command::Execute { command: b }) => {
        },
        (Command::Forward { hop: h1, command: a }, Command::Forward { hop: h2, command: b }) => {
            let i1 = choose|i: int|
                {
                    &&& #[trigger] first_at(s, i)
                    &&& local_parse(s.take(i)) == Some(a)
                    &&& h1@ == s.skip(i + 1)
                    &&& is_host_text(h1@)
                };
            let i2 = choose|i: int|
                {
                    &&& #[trigger] first_at(s, i)
                    &&& local_parse(s.take(i)) == Some(b)
                    &&& h2@ == s.skip(i + 1)
                    &&& is_host_text(h2@)
                };
            lemma_first_at_unique(s, i1, i2);
        },
        (Command::Execute { command: a }, Command::Forward { hop: h2, command: b }) => {
            let i2 = choose|i: int|
                {
                    &&& #[trigger] first_at(s, i)
                    &&& local_parse(s.take(i)) == Some(b)
                    &&& h2@ == s.skip(i + 1)
                    &&& is_host_text(h2@)
                };
            assert(s[i2] != '@');
        },
        (Command::Forward { hop: h1, command: a }, Command::Execute { command: b }) => {
            let i1 = choose|i: int|
                {
                    &&& #[trigger] first_at(s, i)
                    &&& local_parse(s.take(i)) == Some(a)
                    &&& h1@ == s.skip(i + 1)
                    &&& is_host_text(h1@)
                };
            assert(s[i1] != '@');
        },
    }
}

} // verus!

