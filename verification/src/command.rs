//! The debugger's command language: a line of input, split into words, names
//! one command.
use vstd::prelude::*;
use crate::number::{parse_unsigned, parse_unsigned_spec};
use crate::text::{chars_of, lemma_blank_iff_no_words, split_whitespace, trim, words};

verus! {

/// A command of the debugger.
#[derive(Debug)]
pub enum DebuggerCommand {
    /// Leave the debugger.
    Quit,
    /// Start the target afresh with these arguments.
    Run(Vec<String>),
    /// Let the stopped target go on.
    Continue,
    /// Print the call stack of the stopped target.
    Backtrace,
    /// Set a breakpoint: at a raw address (`*addr`, where `None` means that the
    /// address did not parse), or else at a line number or a function named by
    /// the text.
    Break(Option<usize>, String),
}

/// The mathematical value of a [`DebuggerCommand`].
pub enum CommandSpec {
    Quit,
    Run(Seq<Seq<char>>),
    Continue,
    Backtrace,
    Break(Option<usize>, Seq<char>),
}

impl View for DebuggerCommand {
    type V = CommandSpec;

    open spec fn view(&self) -> CommandSpec {
        match self {
            DebuggerCommand::Quit => CommandSpec::Quit,
            DebuggerCommand::Run(args) => CommandSpec::Run(args@.map_values(|a: String| a@)),
            DebuggerCommand::Continue => CommandSpec::Continue,
            DebuggerCommand::Backtrace => CommandSpec::Backtrace,
            DebuggerCommand::Break(addr, name) => CommandSpec::Break(*addr, name@),
        }
    }
}

/// The text after an optional `0x` or `0X` prefix.
pub open spec fn strip_hex_prefix(s: Seq<char>) -> Seq<char> {
    if s.len() >= 2 && s[0] == '0' && (s[1] == 'x' || s[1] == 'X') {
        s.subrange(2, s.len() as int)
    } else {
        s
    }
}

/// The address that a text names: hexadecimal digits, after an optional `0x`
/// prefix in either case, with the value fitting in a `usize`.
pub open spec fn parse_address_spec(s: Seq<char>) -> Option<usize> {
    match parse_unsigned_spec(strip_hex_prefix(s), 16) {
        Some(v) => Some(v as usize),
        None => None,
    }
}

/// An address parses the same with a `0x` or `0X` prefix as the bare digits
/// do without one.
pub proof fn lemma_hex_prefix_is_optional(t: Seq<char>)
    requires
        !(t.len() >= 2 && t[0] == '0' && (t[1] == 'x' || t[1] == 'X')),
    ensures
        parse_address_spec(seq!['0', 'x'] + t) == parse_address_spec(t),
        parse_address_spec(seq!['0', 'X'] + t) == parse_address_spec(t),
        parse_address_spec(t) == match parse_unsigned_spec(t, 16) {
            Some(v) => Some(v as usize),
            None => None::<usize>,
        },
{
    let a = seq!['0', 'x'] + t;
    let b = seq!['0', 'X'] + t;
    assert(a[0] == '0' && a[1] == 'x' && b[0] == '0' && b[1] == 'X');
    assert(a.subrange(2, a.len() as int) =~= t);
    assert(b.subrange(2, b.len() as int) =~= t);
}

/// The command that a list of words names, if any.
pub open spec fn from_tokens_spec(tokens: Seq<Seq<char>>) -> Option<CommandSpec> {
    let verb = tokens[0];
    if verb == "q"@ || verb == "quit"@ {
        Some(CommandSpec::Quit)
    } else if verb == "r"@ || verb == "run"@ {
        Some(CommandSpec::Run(tokens.drop_first()))
    } else if verb == "c"@ || verb == "cont"@ {
        Some(CommandSpec::Continue)
    } else if verb == "bt"@ || verb == "back"@ || verb == "backtrace"@ {
        Some(CommandSpec::Backtrace)
    } else if verb == "b"@ || verb == "break"@ {
        let point = tokens[1];
        if point.len() > 0 && point[0] == '*' {
            Some(CommandSpec::Break(parse_address_spec(point.drop_first()), Seq::empty()))
        } else {
            Some(CommandSpec::Break(None, point))
        }
    } else {
        None
    }
}

/// The words that name commands.
pub open spec fn command_words() -> Seq<Seq<char>> {
    seq!["q"@, "quit"@, "r"@, "run"@, "c"@, "cont"@, "bt"@, "back"@, "backtrace"@, "b"@, "break"@]
}

proof fn lemma_command_words_known()
    ensures
        forall|k: int| 0 <= k < command_words().len() ==> (#[trigger] command_words()[k]).len() > 0,
        forall|j: int, k: int|
            0 <= j < command_words().len() && 0 <= k < command_words().len() && j != k
                ==> #[trigger] command_words()[j] != #[trigger] command_words()[k],
{
    reveal_strlit("q");
    reveal_strlit("quit");
    reveal_strlit("r");
    reveal_strlit("run");
    reveal_strlit("c");
    reveal_strlit("cont");
    reveal_strlit("bt");
    reveal_strlit("back");
    reveal_strlit("backtrace");
    reveal_strlit("b");
    reveal_strlit("break");
    let w = command_words();
    assert(w[0][0] == 'q' && w[1][0] == 'q' && w[2][0] == 'r' && w[3][0] == 'r' && w[4][0] == 'c'
        && w[5][0] == 'c' && w[6][0] == 'b' && w[7][0] == 'b' && w[8][0] == 'b' && w[9][0] == 'b'
        && w[10][0] == 'b');
    assert(w[0].len() == 1 && w[1].len() == 4 && w[2].len() == 1 && w[3].len() == 3 && w[4].len()
        == 1 && w[5].len() == 4 && w[6].len() == 2 && w[7].len() == 4 && w[8].len() == 9
        && w[9].len() == 1 && w[10].len() == 5);
    assert forall|j: int, k: int|
        0 <= j < w.len() && 0 <= k < w.len() && j != k implies #[trigger] w[j] != #[trigger] w[k] by {
        if w[j].len() == w[k].len() {
            assert(w[j][0] != w[k][0]);
        }
    }
}

/// The verbs and what they name: `q`/`quit` quit, `c`/`cont` continue,
/// `bt`/`back`/`backtrace` print a backtrace (whatever words follow), `r`/`run`
/// and `b`/`break` start or set a breakpoint, and any other first word names
/// no command.
pub proof fn lemma_command_verbs(tokens: Seq<Seq<char>>)
    requires
        tokens.len() >= 1,
    ensures
        tokens[0] == "q"@ || tokens[0] == "quit"@ ==> from_tokens_spec(tokens) == Some(CommandSpec::Quit),
        tokens[0] == "c"@ || tokens[0] == "cont"@ ==> from_tokens_spec(tokens) == Some(
            CommandSpec::Continue,
        ),
        tokens[0] == "bt"@ || tokens[0] == "back"@ || tokens[0] == "backtrace"@ ==> from_tokens_spec(
            tokens,
        ) == Some(CommandSpec::Backtrace),
        tokens[0] == "r"@ || tokens[0] == "run"@ ==> from_tokens_spec(tokens) matches Some(
            CommandSpec::Run(_),
        ),
        tokens[0] == "b"@ || tokens[0] == "break"@ ==> from_tokens_spec(tokens) matches Some(
            CommandSpec::Break(_, _),
        ),
        from_tokens_spec(tokens) is None <==> !command_words().contains(tokens[0]),
{
    lemma_command_words_known();
    let w = command_words();
    let v = tokens[0];
    assert(w[0] == "q"@ && w[1] == "quit"@ && w[2] == "r"@ && w[3] == "run"@ && w[4] == "c"@ && w[5]
        == "cont"@ && w[6] == "bt"@ && w[7] == "back"@ && w[8] == "backtrace"@ && w[9] == "b"@
        && w[10] == "break"@);
    if w.contains(v) {
        let k = choose|k: int| 0 <= k < w.len() && w[k] == v;
        assert(w[0] != w[2] && w[0] != w[3] && w[1] != w[2] && w[1] != w[3]);
        assert(w[k] == w[0] || w[k] == w[1] || w[k] == w[2] || w[k] == w[3] || w[k] == w[4] || w[k]
            == w[5] || w[k] == w[6] || w[k] == w[7] || w[k] == w[8] || w[k] == w[9] || w[k] == w[10]);
    } else {
        assert(v != w[0] && v != w[1] && v != w[2] && v != w[3] && v != w[4] && v != w[5] && v != w[6]
            && v != w[7] && v != w[8] && v != w[9] && v != w[10]);
    }
    if v == w[4] || v == w[5] {
        assert(v != w[0] && v != w[1] && v != w[2] && v != w[3]);
    }
    if v == w[6] || v == w[7] || v == w[8] {
        assert(v != w[0] && v != w[1] && v != w[2] && v != w[3] && v != w[4] && v != w[5]);
    }
    if v == w[9] || v == w[10] {
        assert(v != w[0] && v != w[1] && v != w[2] && v != w[3] && v != w[4] && v != w[5] && v != w[6]
            && v != w[7] && v != w[8]);
    }
    if v == w[2] || v == w[3] {
        assert(v != w[0] && v != w[1]);
    }
}

/// A run command passes on every word after its verb, whatever their number:
/// argument `i` is word `i + 1`.
pub proof fn lemma_run_passes_every_argument(tokens: Seq<Seq<char>>)
    requires
        tokens.len() >= 1,
        tokens[0] == "r"@ || tokens[0] == "run"@,
    ensures
        from_tokens_spec(tokens) matches Some(CommandSpec::Run(args)) && args.len() + 1
            == tokens.len() && forall|i: int| 0 <= i < args.len() ==> args[i] == tokens[i + 1],
{
    reveal_strlit("q");
    reveal_strlit("quit");
    reveal_strlit("r");
    reveal_strlit("run");
    assert("r"@[0] != "q"@[0] && "r"@[0] != "quit"@[0] && "run"@[0] != "q"@[0] && "run"@[0]
        != "quit"@[0]);
}

/// A breakpoint named by a word without `*` keeps the whole word as its
/// location, and one written `*addr` carries the address that `addr` parses
/// to.
pub proof fn lemma_break_keeps_its_location(tokens: Seq<Seq<char>>)
    requires
        tokens.len() >= 2,
        tokens[0] == "b"@ || tokens[0] == "break"@,
    ensures
        tokens[1].len() > 0 && tokens[1][0] == '*' ==> from_tokens_spec(tokens) == Some(
            CommandSpec::Break(parse_address_spec(tokens[1].subrange(1, tokens[1].len() as int)), Seq::empty()),
        ),
        !(tokens[1].len() > 0 && tokens[1][0] == '*') ==> from_tokens_spec(tokens) == Some(
            CommandSpec::Break(None, tokens[1]),
        ),
{
    reveal_strlit("q");
    reveal_strlit("quit");
    reveal_strlit("r");
    reveal_strlit("run");
    reveal_strlit("c");
    reveal_strlit("cont");
    reveal_strlit("bt");
    reveal_strlit("back");
    reveal_strlit("backtrace");
    reveal_strlit("b");
    reveal_strlit("break");
    let others = seq!["q"@, "quit"@, "r"@, "run"@, "c"@, "cont"@, "bt"@, "back"@, "backtrace"@];
    assert forall|k: int| 0 <= k < others.len() implies others[k] != "b"@ && others[k] != "break"@ by {
        assert(others[k].len() != 1 || others[k][0] != 'b');
        if others[k].len() == 5 {
            assert(others[k] == "cont"@ || others[k] == "quit"@ || others[k] == "break"@);
        }
    }
    assert(others[0] != tokens[0] && others[1] != tokens[0] && others[2] != tokens[0] && others[3]
        != tokens[0] && others[4] != tokens[0] && others[5] != tokens[0] && others[6] != tokens[0]
        && others[7] != tokens[0] && others[8] != tokens[0]);
    if tokens[1].len() > 0 {
        assert(tokens[1].drop_first() =~= tokens[1].subrange(1, tokens[1].len() as int));
    }
}

/// The views of a list of words.
pub open spec fn tokens_view(tokens: Seq<&str>) -> Seq<Seq<char>> {
    tokens.map_values(|t: &str| t@)
}

/// The address named by `s[start..]`.
fn parse_address_chars(s: &Vec<char>, start: usize) -> (r: Option<usize>)
    requires
        start <= s.len(),
    ensures
        r == parse_address_spec(s@.subrange(start as int, s.len() as int)),
{
    let ghost text = s@.subrange(start as int, s.len() as int);
    let n = s.len();
    let mut first = start;
    if n - start >= 2 && s[start] == '0' && (s[start + 1] == 'x' || s[start + 1] == 'X') {
        first = start + 2;
    }
    assert(strip_hex_prefix(text) =~= s@.subrange(first as int, n as int));
    match parse_unsigned(s, first, 16) {
        Some(v) => Some(v),
        None => None,
    }
}

/// Parses a breakpoint address: hexadecimal, with an optional `0x` prefix.
pub fn parse_address(addr: &str) -> (r: Option<usize>)
    ensures
        r == parse_address_spec(addr@),
{
    let chars = chars_of(addr);
    assert(chars@.subrange(0, chars@.len() as int) =~= addr@);
    parse_address_chars(&chars, 0)
}

impl DebuggerCommand {
    /// The command that the words of an input line name, or `None` when the
    /// first word is no command. `b` and `break` take the following word as
    /// the breakpoint's location.
    pub fn from_tokens(tokens: &Vec<&str>) -> (r: Option<DebuggerCommand>)
        requires
            tokens@.len() >= 1,
            tokens@[0]@ == "b"@ || tokens@[0]@ == "break"@ ==> tokens@.len() >= 2,
        ensures
            match r {
                Some(cmd) => from_tokens_spec(tokens_view(tokens@)) == Some(cmd@),
                None => from_tokens_spec(tokens_view(tokens@)) is None,
            },
    {
        let ghost tv = tokens_view(tokens@);
        let verb: String = tokens[0].to_owned();
        assert(tv[0] == verb@);
        if verb == "q".to_owned() || verb == "quit".to_owned() {
            Some(DebuggerCommand::Quit)
        } else if verb == "r".to_owned() || verb == "run".to_owned() {
            let mut args: Vec<String> = Vec::new();
            let mut i: usize = 1;
            while i < tokens.len()
                invariant
                    1 <= i <= tokens@.len(),
                    tv == tokens_view(tokens@),
                    args@.map_values(|a: String| a@) == tv.subrange(1, i as int),
                decreases tokens@.len() - i,
            {
                let a: String = tokens[i].to_owned();
                assert(a@ == tv[i as int]);
                let ghost prev = args@;
                args.push(a);
                assert(args@.map_values(|a: String| a@) =~= prev.map_values(|a: String| a@).push(tv[i as int]));
                assert(args@.map_values(|a: String| a@) =~= tv.subrange(1, i + 1));
                i += 1;
            }
            assert(tv.subrange(1, tokens@.len() as int) =~= tv.drop_first());
            Some(DebuggerCommand::Run(args))
        } else if verb == "c".to_owned() || verb == "cont".to_owned() {
            Some(DebuggerCommand::Continue)
        } else if verb == "bt".to_owned() || verb == "back".to_owned() || verb
            == "backtrace".to_owned() {
            Some(DebuggerCommand::Backtrace)
        } else if verb == "b".to_owned() || verb == "break".to_owned() {
            let point: &str = tokens[1];
            assert(tv[1] == point@);
            let chars = chars_of(point);
            if chars.len() > 0 && chars[0] == '*' {
                let addr = parse_address_chars(&chars, 1);
                assert(chars@.subrange(1, chars@.len() as int) =~= point@.drop_first());
                let empty = String::new();
                assert(empty@ =~= Seq::<char>::empty());
                Some(DebuggerCommand::Break(addr, empty))
            } else {
                Some(DebuggerCommand::Break(None, point.to_owned()))
            }
        } else {
            None
        }
    }
}


/// What a line of input to the debugger is.
#[derive(Debug)]
pub enum ParsedLine {
    /// Nothing but whitespace.
    Blank,
    /// Its first word names no command.
    Unrecognized,
    /// A command.
    Command(DebuggerCommand),
}

/// Reads a line of input: blank, or split into words and read as a command
/// with [`DebuggerCommand::from_tokens`]. A `b` or `break` needs a word after
/// it.
pub fn parse_command_line(line: &str) -> (r: ParsedLine)
    requires
        words(line@).len() >= 1 && (words(line@)[0] == "b"@ || words(line@)[0] == "break"@)
            ==> words(line@).len() >= 2,
    ensures
        match r {
            ParsedLine::Blank => trim(line@).len() == 0,
            ParsedLine::Unrecognized => trim(line@).len() != 0 && from_tokens_spec(words(line@))
                is None,
            ParsedLine::Command(cmd) => trim(line@).len() != 0 && from_tokens_spec(words(line@))
                == Some(cmd@),
        },
{
    let owned = split_whitespace(line);
    proof {
        lemma_blank_iff_no_words(line@);
    }
    if owned.len() == 0 {
        return ParsedLine::Blank;
    }
    let mut tokens: Vec<&str> = Vec::new();
    let mut i: usize = 0;
    while i < owned.len()
        invariant
            i <= owned@.len(),
            owned@.map_values(|t: String| t@) == words(line@),
            tokens_view(tokens@) == owned@.map_values(|t: String| t@).take(i as int),
        decreases owned@.len() - i,
    {
        let t: &str = owned[i].as_str();
        let ghost prev = tokens@;
        tokens.push(t);
        assert(tokens_view(tokens@) =~= tokens_view(prev).push(t@));
        assert(owned@.map_values(|t: String| t@).take(i + 1) =~= owned@.map_values(
            |t: String| t@,
        ).take(i as int).push(owned@[i as int]@));
        i += 1;
    }
    assert(tokens_view(tokens@) =~= words(line@));
    assert(tokens@[0]@ == words(line@)[0]);
    match DebuggerCommand::from_tokens(&tokens) {
        Some(cmd) => ParsedLine::Command(cmd),
        None => ParsedLine::Unrecognized,
    }
}

} // verus!
