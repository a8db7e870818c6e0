//! UCI commands: reading them from a line and writing them as text.
use crate::fen::chars_of;
use crate::moving::Move;
use crate::text::string_from_chars;
use vstd::prelude::*;

verus! {

/// A command of the Universal Chess Interface, from the GUI or from the engine.
#[derive(Debug)]
pub enum UciCommand {
    Uci,
    Debug(bool),
    IsReady,
    SetOption { name: String, value: Option<String> },
    UciNewGame,
    Position { position: UciPosition, moves: Vec<String> },
    GoDepth(u32),
    Id { name: String, author: String },
    BestMove(Move),
    UciOk,
    ReadyOk,
    Stop,
    Quit,
}

/// The position a `position` command starts from.
#[derive(Debug)]
pub enum UciPosition {
    StartPos,
    Fen(String),
}

/// A UCI command with its texts as character sequences.
pub enum CommandModel {
    Uci,
    Debug(bool),
    IsReady,
    SetOption { name: Seq<char>, value: Option<Seq<char>> },
    UciNewGame,
    Position { start: Option<Seq<char>>, moves: Seq<Seq<char>> },
    GoDepth(u32),
    Id { name: Seq<char>, author: Seq<char> },
    BestMove(Move),
    UciOk,
    ReadyOk,
    Stop,
    Quit,
}

impl View for UciPosition {
    type V = Option<Seq<char>>;

    /// Nothing for the starting position, the FEN text otherwise.
    open spec fn view(&self) -> Option<Seq<char>> {
        match self {
            UciPosition::StartPos => None,
            UciPosition::Fen(f) => Some(f@),
        }
    }
}

impl View for UciCommand {
    type V = CommandModel;

    open spec fn view(&self) -> CommandModel {
        match self {
            UciCommand::Uci => CommandModel::Uci,
            UciCommand::Debug(b) => CommandModel::Debug(*b),
            UciCommand::IsReady => CommandModel::IsReady,
            UciCommand::SetOption { name, value } => CommandModel::SetOption {
                name: name@,
                value: match value {
                    Some(v) => Some(v@),
                    None => None,
                },
            },
            UciCommand::UciNewGame => CommandModel::UciNewGame,
            UciCommand::Position { position, moves } => CommandModel::Position {
                start: position@,
                moves: moves@.map_values(|m: String| m@),
            },
            UciCommand::GoDepth(d) => CommandModel::GoDepth(*d),
            UciCommand::Id { name, author } => CommandModel::Id { name: name@, author: author@ },
            UciCommand::BestMove(m) => CommandModel::BestMove(*m),
            UciCommand::UciOk => CommandModel::UciOk,
            UciCommand::ReadyOk => CommandModel::ReadyOk,
            UciCommand::Stop => CommandModel::Stop,
            UciCommand::Quit => CommandModel::Quit,
        }
    }
}

/// Whether `c` is white space: has Unicode's White_Space property.
pub open spec fn is_ws(c: char) -> bool {
    let n = c as int;
    ||| 0x09 <= n <= 0x0d
    ||| n == 0x20
    ||| n == 0x85
    ||| n == 0xa0
    ||| n == 0x1680
    ||| 0x2000 <= n <= 0x200a
    ||| n == 0x2028
    ||| n == 0x2029
    ||| n == 0x202f
    ||| n == 0x205f
    ||| n == 0x3000
}

/// The first index at or after `i` whose character is not white space, or the length.
pub open spec fn skip_ws(cs: Seq<char>, i: int) -> int
    decreases cs.len() - i,
{
    if i < 0 || i >= cs.len() {
        cs.len() as int
    } else if is_ws(cs[i]) {
        skip_ws(cs, i + 1)
    } else {
        i
    }
}

/// The first index at or after `i` whose character is white space, or the length.
pub open spec fn word_end(cs: Seq<char>, i: int) -> int
    decreases cs.len() - i,
{
    if i < 0 || i >= cs.len() {
        cs.len() as int
    } else if is_ws(cs[i]) {
        i
    } else {
        word_end(cs, i + 1)
    }
}

pub proof fn lemma_skip_ws(cs: Seq<char>, i: int)
    requires
        0 <= i,
    ensures
        i <= skip_ws(cs, i) || i > cs.len(),
        skip_ws(cs, i) <= cs.len(),
        skip_ws(cs, i) < cs.len() ==> !is_ws(cs[skip_ws(cs, i)]),
    decreases cs.len() - i,
{
    if i < cs.len() && is_ws(cs[i]) {
        lemma_skip_ws(cs, i + 1);
    }
}

pub proof fn lemma_word_end(cs: Seq<char>, i: int)
    requires
        0 <= i <= cs.len(),
    ensures
        i <= word_end(cs, i) <= cs.len(),
        i < cs.len() && !is_ws(cs[i]) ==> i < word_end(cs, i),
    decreases cs.len() - i,
{
    if i < cs.len() && !is_ws(cs[i]) {
        lemma_word_end(cs, i + 1);
    }
}

/// The words of `cs` from index `i` on: its runs of characters that are not white space.
pub open spec fn words_from(cs: Seq<char>, i: int) -> Seq<Seq<char>>
    decreases cs.len() - i,
{
    if i < 0 || i >= cs.len() {
        Seq::empty()
    } else {
        let s = skip_ws(cs, i);
        if s >= cs.len() {
            Seq::empty()
        } else {
            let e = word_end(cs, s);
            proof {
                lemma_skip_ws(cs, i);
                lemma_word_end(cs, s);
            }
            seq![cs.subrange(s, e)] + words_from(cs, e)
        }
    }
}

/// The words of `cs`, as `split_whitespace` gives them.
pub open spec fn words(cs: Seq<char>) -> Seq<Seq<char>> {
    words_from(cs, 0)
}

/// What `str::parse::<u32>` reads from `cs`: an optional `+`, then at least one decimal
/// digit, the number fitting in 32 bits.
pub open spec fn digits_value(cs: Seq<char>) -> int
    decreases cs.len(),
{
    if cs.len() == 0 {
        0
    } else {
        digits_value(cs.drop_last()) * 10 + (cs.last() as int - 48)
    }
}

/// Whether every character is a decimal digit.
pub open spec fn all_digits(cs: Seq<char>) -> bool {
    forall|i: int| 0 <= i < cs.len() ==> 48 <= (#[trigger] cs[i] as int) <= 57
}

/// The `u32` that `cs` spells, as `str::parse::<u32>` reads it.
pub open spec fn parse_u32(cs: Seq<char>) -> Option<u32> {
    let ds = if cs.len() > 0 && cs[0] == '+' { cs.drop_first() } else { cs };
    if ds.len() > 0 && all_digits(ds) && digits_value(ds) <= u32::MAX {
        Some(digits_value(ds) as u32)
    } else {
        None
    }
}

/// Whether `parse` reads `cs` without indexing past its words: a first word, and the words
/// that `debug`, `setoption name` and `go depth` read.
pub open spec fn parse_defined(cs: Seq<char>) -> bool {
    let w = words(cs);
    &&& w.len() >= 1
    &&& w[0] == "debug"@ ==> w.len() >= 2
    &&& w[0] == "setoption"@ ==> w.len() >= 2
        && (w[1] == "name"@ ==> w.len() >= 4)
    &&& w[0] == "go"@ ==> w.len() >= 2 && (w[1] == "depth"@ ==> w.len() >= 3)
}

/// The command that the line `cs` gives; see `UciCommand::parse`.
pub open spec fn parse_command(cs: Seq<char>) -> Option<CommandModel> {
    let w = words(cs);
    let head = w[0];
    if head == "uci"@ {
        Some(CommandModel::Uci)
    } else if head == "uciok"@ {
        Some(CommandModel::UciOk)
    } else if head == "readyok"@ {
        Some(CommandModel::ReadyOk)
    } else if head == "stop"@ {
        Some(CommandModel::Stop)
    } else if head == "quit"@ {
        Some(CommandModel::Quit)
    } else if head == "isready"@ {
        Some(CommandModel::IsReady)
    } else if head == "ucinewgame"@ {
        Some(CommandModel::UciNewGame)
    } else if head == "debug"@ {
        Some(CommandModel::Debug(w[1] == "on"@))
    } else if head == "setoption"@ {
        if w[1] != "name"@ || w[3] != "value"@ {
            None
        } else {
            Some(CommandModel::SetOption { name: w[2], value: if w.len() > 4 { Some(w[4]) } else { None } })
        }
    } else if head == "go"@ {
        if w[1] != "depth"@ {
            None
        } else {
            match parse_u32(w[2]) {
                Some(d) => Some(CommandModel::GoDepth(d)),
                None => None,
            }
        }
    } else {
        None
    }
}

/// The characters `cs[lo..hi]` as a string.
fn string_of_range(cs: &Vec<char>, lo: usize, hi: usize) -> (r: String)
    requires
        lo <= hi <= cs@.len(),
    ensures
        r@ == cs@.subrange(lo as int, hi as int),
{
    let mut part: Vec<char> = Vec::new();
    let mut i = lo;
    while i < hi
        invariant
            lo <= i <= hi <= cs@.len(),
            part@ == cs@.subrange(lo as int, i as int),
        decreases hi - i,
    {
        part.push(cs[i]);
        assert(part@ =~= cs@.subrange(lo as int, i + 1));
        i += 1;
    }
    string_from_chars(&part)
}

fn char_is_ws(c: char) -> (r: bool)
    ensures
        r == is_ws(c),
{
    let n = c as u32;
    (0x09 <= n && n <= 0x0d) || n == 0x20 || n == 0x85 || n == 0xa0 || n == 0x1680 || (0x2000 <= n && n <= 0x200a)
        || n == 0x2028 || n == 0x2029 || n == 0x202f || n == 0x205f || n == 0x3000
}

/// The bounds of the words of `cs`.
fn word_bounds(cs: &Vec<char>) -> (r: Vec<(usize, usize)>)
    ensures
        r@.len() == words(cs@).len(),
        forall|k: int| 0 <= k < r@.len() ==> r@[k].0 <= r@[k].1 <= cs@.len()
            && #[trigger] words(cs@)[k] == cs@.subrange(r@[k].0 as int, r@[k].1 as int),
{
    let mut r: Vec<(usize, usize)> = Vec::new();
    let mut i: usize = 0;
    while i < cs.len()
        invariant
            i <= cs@.len(),
            words(cs@) == r@.map_values(|b: (usize, usize)| cs@.subrange(b.0 as int, b.1 as int)) + words_from(cs@, i as int),
            forall|k: int| 0 <= k < r@.len() ==> (#[trigger] r@[k]).0 <= r@[k].1 <= cs@.len(),
        decreases cs@.len() - i,
    {
        let ghost gi = i as int;
        let mut s = i;
        while s < cs.len() && char_is_ws(cs[s])
            invariant
                i <= s <= cs@.len(),
                skip_ws(cs@, i as int) == skip_ws(cs@, s as int),
            decreases cs@.len() - s,
        {
            s += 1;
        }
        if s >= cs.len() {
            i = s;
        } else {
            let mut e = s;
            while e < cs.len() && !char_is_ws(cs[e])
                invariant
                    s <= e <= cs@.len(),
                    word_end(cs@, s as int) == word_end(cs@, e as int),
                decreases cs@.len() - e,
            {
                e += 1;
            }
            let ghost before = r@;
            r.push((s, e));
            proof {
                lemma_skip_ws(cs@, gi);
                lemma_word_end(cs@, s as int);
                assert(r@.map_values(|b: (usize, usize)| cs@.subrange(b.0 as int, b.1 as int))
                    =~= before.map_values(|b: (usize, usize)| cs@.subrange(b.0 as int, b.1 as int)) + seq![cs@.subrange(s as int, e as int)]);
            }
            i = e;
        }
    }
    assert(words_from(cs@, i as int) =~= Seq::<Seq<char>>::empty());
    proof {
        let f = |b: (usize, usize)| cs@.subrange(b.0 as int, b.1 as int);
        assert(words(cs@) =~= r@.map_values(f));
        assert forall|k: int| 0 <= k < r@.len() implies r@[k].0 <= r@[k].1 <= cs@.len()
            && #[trigger] words(cs@)[k] == cs@.subrange(r@[k].0 as int, r@[k].1 as int) by {
            assert(r@.map_values(f)[k] == f(r@[k]));
        }
    }
    r
}

/// Whether the characters `cs[b.0..b.1]` are those of `lit`.
fn word_is(cs: &Vec<char>, b: (usize, usize), lit: &str) -> (r: bool)
    requires
        b.0 <= b.1 <= cs@.len(),
    ensures
        r == (cs@.subrange(b.0 as int, b.1 as int) == lit@),
{
    let l = chars_of(lit);
    if b.1 - b.0 != l.len() {
        assert(cs@.subrange(b.0 as int, b.1 as int).len() != lit@.len());
        return false;
    }
    let mut i: usize = 0;
    while i < l.len()
        invariant
            i <= l@.len(),
            l@ == lit@,
            b.0 <= b.1 <= cs@.len(),
            b.1 - b.0 == l@.len(),
            forall|j: int| 0 <= j < i ==> cs@[b.0 + j] == l@[j],
        decreases l@.len() - i,
    {
        if cs[b.0 + i] != l[i] {
            assert(cs@.subrange(b.0 as int, b.1 as int)[i as int] != lit@[i as int]);
            return false;
        }
        i += 1;
    }
    assert(cs@.subrange(b.0 as int, b.1 as int) =~= lit@);
    true
}

proof fn lemma_digits_nonneg(s: Seq<char>)
    requires
        all_digits(s),
    ensures
        digits_value(s) >= 0,
    decreases s.len(),
{
    if s.len() > 0 {
        assert(all_digits(s.drop_last())) by {
            assert forall|i: int| 0 <= i < s.drop_last().len() implies 48 <= (#[trigger] s.drop_last()[i] as int) <= 57 by {
                assert(s.drop_last()[i] == s[i]);
            }
        }
        lemma_digits_nonneg(s.drop_last());
        assert(48 <= (s[s.len() - 1] as int) <= 57);
    }
}

proof fn lemma_digits_prefix(s: Seq<char>, k: int)
    requires
        all_digits(s),
        0 <= k <= s.len(),
    ensures
        digits_value(s.take(k)) <= digits_value(s),
    decreases s.len(),
{
    if k == s.len() {
        assert(s.take(k) =~= s);
    } else {
        assert(all_digits(s.drop_last())) by {
            assert forall|i: int| 0 <= i < s.drop_last().len() implies 48 <= (#[trigger] s.drop_last()[i] as int) <= 57 by {
                assert(s.drop_last()[i] == s[i]);
            }
        }
        lemma_digits_prefix(s.drop_last(), k);
        assert(s.drop_last().take(k) =~= s.take(k));
        lemma_digits_nonneg(s.drop_last());
        assert(48 <= (s[s.len() - 1] as int) <= 57);
    }
}

/// The value of a decimal digit.
fn digit_value(c: char) -> (r: Option<u64>)
    ensures
        r == (if 48 <= (c as int) <= 57 { Some((c as int - 48) as u64) } else { None::<u64> }),
{
    let n = c as u32;
    if 48 <= n && n <= 57 {
        Some((n - 48) as u64)
    } else {
        None
    }
}

/// The `u32` that `cs[lo..hi]` spells; see `parse_u32`.
fn parse_u32_range(cs: &Vec<char>, lo: usize, hi: usize) -> (r: Option<u32>)
    requires
        lo <= hi <= cs@.len(),
    ensures
        r == parse_u32(cs@.subrange(lo as int, hi as int)),
{
    let ghost whole = cs@.subrange(lo as int, hi as int);
    let mut start = lo;
    if start < hi && cs[start] == '+' {
        start += 1;
    }
    let ghost ds = cs@.subrange(start as int, hi as int);
    assert(ds =~= (if whole.len() > 0 && whole[0] == '+' { whole.drop_first() } else { whole }));
    if start >= hi {
        return None;
    }
    let mut val: u64 = 0;
    let mut i = start;
    assert(cs@.subrange(start as int, start as int) =~= Seq::<char>::empty());
    while i < hi
        invariant
            start <= i <= hi <= cs@.len(),
            lo <= start,
            whole == cs@.subrange(lo as int, hi as int),
            ds == (if whole.len() > 0 && whole[0] == '+' { whole.drop_first() } else { whole }),
            ds.len() > 0,
            ds == cs@.subrange(start as int, hi as int),
            ds.take(i - start) == cs@.subrange(start as int, i as int),
            all_digits(cs@.subrange(start as int, i as int)),
            val == digits_value(cs@.subrange(start as int, i as int)),
            val <= u32::MAX,
        decreases hi - i,
    {
        let c = cs[i];
        assert(cs@.subrange(start as int, i + 1).drop_last() =~= cs@.subrange(start as int, i as int));
        let d = match digit_value(c) {
            Some(d) => d,
            None => {
                assert(!all_digits(ds)) by {
                    assert(ds[i - start] == c);
                }
                return None;
            },
        };
        let next = val * 10 + d;
        assert(all_digits(cs@.subrange(start as int, i + 1))) by {
            let t = cs@.subrange(start as int, i + 1);
            assert forall|j: int| 0 <= j < t.len() implies 48 <= (#[trigger] t[j] as int) <= 57 by {
                if j < t.len() - 1 {
                    assert(t[j] == cs@.subrange(start as int, i as int)[j]);
                }
            }
        }
        if next > u32::MAX as u64 {
            proof {
                if all_digits(ds) {
                    assert(ds.take(i + 1 - start) =~= cs@.subrange(start as int, i + 1));
                    lemma_digits_prefix(ds, i + 1 - start);
                }
            }
            return None;
        }
        val = next;
        i += 1;
        assert(ds.take(i - start) =~= cs@.subrange(start as int, i as int));
    }
    assert(ds.take(hi - start) =~= ds);
    Some(val as u32)
}

/// A parsed command by its view.
pub open spec fn command_opt(r: Option<UciCommand>) -> Option<CommandModel> {
    match r {
        Some(c) => Some(c@),
        None => None,
    }
}

impl UciCommand {
    /// The command on the line `command`; see `parse_command`. The line must hold the words
    /// that `parse_defined` asks for.
    pub fn parse(command: &str) -> (r: Option<Self>)
        requires
            parse_defined(command@),
        ensures
            command_opt(r) == parse_command(command@),
    {
        let cs = chars_of(command);
        let parts = word_bounds(&cs);
        let ghost w = words(cs@);
        assert(w[0] == cs@.subrange(parts@[0].0 as int, parts@[0].1 as int));
        let head = parts[0];
        if word_is(&cs, head, "uci") {
            return Some(UciCommand::Uci);
        }
        if word_is(&cs, head, "uciok") {
            return Some(UciCommand::UciOk);
        }
        if word_is(&cs, head, "readyok") {
            return Some(UciCommand::ReadyOk);
        }
        if word_is(&cs, head, "stop") {
            return Some(UciCommand::Stop);
        }
        if word_is(&cs, head, "quit") {
            return Some(UciCommand::Quit);
        }
        if word_is(&cs, head, "isready") {
            return Some(UciCommand::IsReady);
        }
        if word_is(&cs, head, "ucinewgame") {
            return Some(UciCommand::UciNewGame);
        }
        if word_is(&cs, head, "debug") {
            assert(w[1] == cs@.subrange(parts@[1].0 as int, parts@[1].1 as int));
            return Some(UciCommand::Debug(word_is(&cs, parts[1], "on")));
        }
        if word_is(&cs, head, "setoption") {
            assert(w[1] == cs@.subrange(parts@[1].0 as int, parts@[1].1 as int));
            if !word_is(&cs, parts[1], "name") {
                return None;
            }
            assert(w[2] == cs@.subrange(parts@[2].0 as int, parts@[2].1 as int));
            assert(w[3] == cs@.subrange(parts@[3].0 as int, parts@[3].1 as int));
            let name = string_of_range(&cs, parts[2].0, parts[2].1);
            if !word_is(&cs, parts[3], "value") {
                return None;
            }
            let value = if parts.len() > 4 {
                assert(w[4] == cs@.subrange(parts@[4].0 as int, parts@[4].1 as int));
                Some(string_of_range(&cs, parts[4].0, parts[4].1))
            } else {
                None
            };
            return Some(UciCommand::SetOption { name, value });
        }
        if word_is(&cs, head, "go") {
            assert(w[1] == cs@.subrange(parts@[1].0 as int, parts@[1].1 as int));
            if !word_is(&cs, parts[1], "depth") {
                return None;
            }
            assert(w[2] == cs@.subrange(parts@[2].0 as int, parts@[2].1 as int));
            let depth = parse_u32_range(&cs, parts[2].0, parts[2].1)?;
            return Some(UciCommand::GoDepth(depth));
        }
        None
    }
}

/// The digit character of `d`, below ten.
pub open spec fn digit_of(d: int) -> char {
    if d == 0 { '0' }
    else if d == 1 { '1' }
    else if d == 2 { '2' }
    else if d == 3 { '3' }
    else if d == 4 { '4' }
    else if d == 5 { '5' }
    else if d == 6 { '6' }
    else if d == 7 { '7' }
    else if d == 8 { '8' }
    else { '9' }
}

/// The decimal digits of `n`, most significant first.
pub open spec fn decimal(n: nat) -> Seq<char>
    decreases n,
{
    if n < 10 {
        seq![digit_of(n as int)]
    } else {
        decimal(n / 10).push(digit_of((n % 10) as int))
    }
}

/// The words `ms` with a space between each two.
pub open spec fn join_words(ms: Seq<Seq<char>>) -> Seq<char>
    decreases ms.len(),
{
    if ms.len() == 0 {
        Seq::empty()
    } else if ms.len() == 1 {
        ms[0]
    } else {
        join_words(ms.drop_last()) + " "@ + ms.last()
    }
}

/// The text of a command, one line per line of the command, each ended by a newline.
pub open spec fn command_text(c: CommandModel) -> Seq<char> {
    match c {
        CommandModel::Uci => "uci\n"@,
        CommandModel::UciOk => "uciok\n"@,
        CommandModel::ReadyOk => "readyok\n"@,
        CommandModel::Stop => "stop\n"@,
        CommandModel::Quit => "quit\n"@,
        CommandModel::IsReady => "isready\n"@,
        CommandModel::UciNewGame => "ucinewgame\n"@,
        CommandModel::Debug(b) => "debug "@ + (if b { "on"@ } else { "off"@ }) + "\n"@,
        CommandModel::SetOption { name, value } => "setoption name "@ + name + (match value {
            Some(v) => "value "@ + v,
            None => Seq::empty(),
        }) + "\n"@,
        CommandModel::GoDepth(d) => "go depth "@ + decimal(d as nat) + "\n"@,
        CommandModel::Id { name, author } => "id name "@ + name + "\n"@ + "id author "@ + author + "\n"@,
        CommandModel::Position { start, moves } => "position "@ + (match start {
            None => "startpos"@,
            Some(f) => "fen "@ + f,
        }) + "\n"@ + (if moves.len() > 0 { "moves "@ + join_words(moves) + "\n"@ } else { Seq::empty() }),
        CommandModel::BestMove(_) => Seq::empty(),
    }
}

/// Appends the characters of `s`.
fn push_str(out: &mut Vec<char>, s: &str)
    ensures
        final(out)@ == old(out)@ + s@,
{
    let cs = chars_of(s);
    let ghost start = out@;
    let mut i: usize = 0;
    while i < cs.len()
        invariant
            i <= cs@.len(),
            cs@ == s@,
            start == old(out)@,
            out@ == start + cs@.take(i as int),
        decreases cs@.len() - i,
    {
        out.push(cs[i]);
        assert(out@ =~= start + cs@.take(i + 1));
        i += 1;
    }
    assert(cs@.take(cs@.len() as int) =~= cs@);
}

fn digit_char(d: u32) -> (r: char)
    requires
        d < 10,
    ensures
        r == digit_of(d as int),
{
    match d {
        0 => '0',
        1 => '1',
        2 => '2',
        3 => '3',
        4 => '4',
        5 => '5',
        6 => '6',
        7 => '7',
        8 => '8',
        _ => '9',
    }
}

/// Appends the decimal digits of `n`.
fn push_decimal(out: &mut Vec<char>, n: u32)
    ensures
        final(out)@ == old(out)@ + decimal(n as nat),
    decreases n,
{
    if n >= 10 {
        push_decimal(out, n / 10);
    }
    let ghost mid = out@;
    out.push(digit_char(n % 10));
    assert(out@ =~= old(out)@ + decimal(n as nat));
}

impl UciCommand {
    /// The text of the command; see `command_text`. A best move has no text here.
    pub fn to_string(&self) -> (r: String)
        requires
            !(self@ is BestMove),
        ensures
            r@ == command_text(self@),
    {
        let mut buf: Vec<char> = Vec::new();
        match self {
            UciCommand::Uci => push_str(&mut buf, "uci\n"),
            UciCommand::UciOk => push_str(&mut buf, "uciok\n"),
            UciCommand::ReadyOk => push_str(&mut buf, "readyok\n"),
            UciCommand::Stop => push_str(&mut buf, "stop\n"),
            UciCommand::Quit => push_str(&mut buf, "quit\n"),
            UciCommand::IsReady => push_str(&mut buf, "isready\n"),
            UciCommand::UciNewGame => push_str(&mut buf, "ucinewgame\n"),
            UciCommand::Debug(enabled) => {
                push_str(&mut buf, "debug ");
                push_str(&mut buf, if *enabled { "on" } else { "off" });
                push_str(&mut buf, "\n");
            },
            UciCommand::SetOption { name, value } => {
                push_str(&mut buf, "setoption name ");
                push_str(&mut buf, name.as_str());
                if let Some(value) = value {
                    push_str(&mut buf, "value ");
                    push_str(&mut buf, value.as_str());
                }
                push_str(&mut buf, "\n");
            },
            UciCommand::GoDepth(depth) => {
                push_str(&mut buf, "go depth ");
                push_decimal(&mut buf, *depth);
                push_str(&mut buf, "\n");
            },
            UciCommand::Id { name, author } => {
                push_str(&mut buf, "id name ");
                push_str(&mut buf, name.as_str());
                push_str(&mut buf, "\n");
                push_str(&mut buf, "id author ");
                push_str(&mut buf, author.as_str());
                push_str(&mut buf, "\n");
            },
            UciCommand::BestMove(_) => {},
            UciCommand::Position { position, moves } => {
                push_str(&mut buf, "position ");
                match position {
                    UciPosition::StartPos => push_str(&mut buf, "startpos"),
                    UciPosition::Fen(fen) => {
                        push_str(&mut buf, "fen ");
                        push_str(&mut buf, fen.as_str());
                    },
                }
                push_str(&mut buf, "\n");
                if moves.len() > 0 {
                    push_str(&mut buf, "moves ");
                    push_joined(&mut buf, moves);
                    push_str(&mut buf, "\n");
                }
            },
        }
        assert(buf@ =~= command_text(self@));
        string_from_chars(&buf)
    }
}

/// Appends the strings of `moves` with a space between each two.
fn push_joined(out: &mut Vec<char>, moves: &Vec<String>)
    ensures
        final(out)@ == old(out)@ + join_words(moves@.map_values(|m: String| m@)),
{
    let ghost start = out@;
    let ghost ms = moves@.map_values(|m: String| m@);
    let mut i: usize = 0;
    assert(ms.take(0) =~= Seq::<Seq<char>>::empty());
    while i < moves.len()
        invariant
            i <= moves@.len(),
            ms == moves@.map_values(|m: String| m@),
            start == old(out)@,
            out@ == start + join_words(ms.take(i as int)),
        decreases moves@.len() - i,
    {
        assert(ms.take(i + 1).drop_last() =~= ms.take(i as int));
        assert(ms.take(i + 1).last() == moves@[i as int]@);
        if i > 0 {
            push_str(out, " ");
        }
        push_str(out, moves[i].as_str());
        proof {
            if i == 0 {
                assert(ms.take(1) =~= seq![ms[0]]);
            }
        }
        assert(out@ =~= start + join_words(ms.take(i + 1)));
        i += 1;
    }
    assert(ms.take(moves@.len() as int) =~= ms);
}

/// Scanning `p + q` from inside `q` scans `q`.
proof fn lemma_scan_shift(p: Seq<char>, q: Seq<char>, j: int)
    requires
        0 <= j <= q.len(),
    ensures
        skip_ws(p + q, p.len() + j) == p.len() + skip_ws(q, j),
        word_end(p + q, p.len() + j) == p.len() + word_end(q, j),
    decreases q.len() - j,
{
    if j < q.len() {
        assert((p + q)[p.len() + j] == q[j]);
        lemma_scan_shift(p, q, j + 1);
    }
}

/// The words of `p + q` from inside `q` are those of `q`.
proof fn lemma_words_shift(p: Seq<char>, q: Seq<char>, j: int)
    requires
        0 <= j <= q.len(),
    ensures
        words_from(p + q, p.len() + j) == words_from(q, j),
    decreases q.len() - j,
{
    if j < q.len() {
        lemma_scan_shift(p, q, j);
        let s = skip_ws(q, j);
        lemma_skip_ws(q, j);
        if s < q.len() {
            let e = word_end(q, s);
            lemma_word_end(q, s);
            lemma_scan_shift(p, q, s);
            assert((p + q).subrange(p.len() + s, p.len() + e) =~= q.subrange(s, e));
            lemma_words_shift(p, q, e);
        }
    }
}

/// A word at the start, followed by white space or nothing, is the first word.
proof fn lemma_words_head(a: Seq<char>, r: Seq<char>)
    requires
        a.len() > 0,
        forall|i: int| 0 <= i < a.len() ==> !is_ws(#[trigger] a[i]),
        r.len() == 0 || is_ws(r[0]),
    ensures
        words(a + r) == seq![a] + words(r),
{
    let x = a + r;
    assert(x[0] == a[0]);
    assert(skip_ws(x, 0) == 0);
    lemma_word_end_run(a, r, 0);
    assert(x.subrange(0, a.len() as int) =~= a);
    assert(Seq::<char>::empty() + r =~= r);
    lemma_words_shift(a, r, 0);
}

proof fn lemma_word_end_run(a: Seq<char>, r: Seq<char>, i: int)
    requires
        0 <= i <= a.len(),
        forall|k: int| 0 <= k < a.len() ==> !is_ws(#[trigger] a[k]),
        r.len() == 0 || is_ws(r[0]),
    ensures
        word_end(a + r, i) == a.len(),
    decreases a.len() - i,
{
    if i < a.len() {
        assert((a + r)[i] == a[i]);
        lemma_word_end_run(a, r, i + 1);
    } else if r.len() > 0 {
        assert((a + r)[i] == r[0]);
    }
}

/// White space at the start is no word.
proof fn lemma_words_space(w: Seq<char>, r: Seq<char>)
    requires
        w.len() == 1,
        is_ws(w[0]),
    ensures
        words(w + r) == words(r),
{
    let x = w + r;
    assert(x[0] == w[0]);
    lemma_scan_shift(w, r, 0);
    lemma_skip_ws(r, 0);
    lemma_skip_ws(x, 1);
    lemma_words_skip(x, 0);
    lemma_words_skip(x, 1);
    lemma_words_shift(w, r, 0);
}

/// The words from `i` are the words from the first character at or after `i` that is no white space.
proof fn lemma_words_skip(x: Seq<char>, i: int)
    requires
        0 <= i,
    ensures
        words_from(x, i) == words_from(x, skip_ws(x, i)),
{
    lemma_skip_ws(x, i);
    let s = skip_ws(x, i);
    if i < x.len() && s < x.len() {
        assert(skip_ws(x, s) == s);
    }
}

/// The decimal digits of `n` are digits spelling `n`.
proof fn lemma_decimal(n: nat)
    ensures
        decimal(n).len() > 0,
        all_digits(decimal(n)),
        digits_value(decimal(n)) == n,
        forall|i: int| 0 <= i < decimal(n).len() ==> !is_ws(#[trigger] decimal(n)[i]),
    decreases n,
{
    if n >= 10 {
        lemma_decimal(n / 10);
        let s = decimal(n / 10);
        let t = s.push(digit_of((n % 10) as int));
        assert(t.drop_last() =~= s);
        assert forall|i: int| 0 <= i < t.len() implies 48 <= (#[trigger] t[i] as int) <= 57 && !is_ws(t[i]) by {
            if i < s.len() {
                assert(t[i] == s[i]);
            }
        }
        assert(n / 10 * 10 + n % 10 == n) by (nonlinear_arith);
        let k = (n % 10) as int;
        assert(digit_of(k) as int == k + 48);
        assert(t.last() == digit_of(k));
        assert(digits_value(t) == digits_value(s) * 10 + k);
        assert(decimal(n) == t);
        assert(digits_value(s) == n / 10);
        assert(digits_value(t) == n);
    } else {
        let t = decimal(n);
        assert(digit_of(n as int) as int == n + 48);
        assert(t.drop_last() =~= Seq::<char>::empty());
        assert(digits_value(t.drop_last()) == 0);
        assert(t.last() == digit_of(n as int));
        assert(digits_value(t) == n);
    }
}

/// Writing a command and reading the text back gives the command, for the commands that both
/// ends know: `uci`, `uciok`, `readyok`, `stop`, `quit`, `isready`, `ucinewgame`, `debug` and
/// `go depth`.
pub proof fn lemma_text_round_trip(c: CommandModel)
    requires
        c is Uci || c is UciOk || c is ReadyOk || c is Stop || c is Quit || c is IsReady || c is UciNewGame
            || c is Debug || c is GoDepth,
    ensures
        parse_defined(command_text(c)),
        parse_command(command_text(c)) == Some(c),
{
    reveal_strlit("uci");
    reveal_strlit("uciok");
    reveal_strlit("readyok");
    reveal_strlit("stop");
    reveal_strlit("quit");
    reveal_strlit("isready");
    reveal_strlit("ucinewgame");
    reveal_strlit("debug");
    reveal_strlit("setoption");
    reveal_strlit("go");
    reveal_strlit("depth");
    reveal_strlit("on");
    reveal_strlit("off");
    reveal_strlit("uci\n");
    reveal_strlit("uciok\n");
    reveal_strlit("readyok\n");
    reveal_strlit("stop\n");
    reveal_strlit("quit\n");
    reveal_strlit("isready\n");
    reveal_strlit("ucinewgame\n");
    reveal_strlit("debug ");
    reveal_strlit("go depth ");
    reveal_strlit("\n");
    let nl = "\n"@;
    assert(words(nl) == Seq::<Seq<char>>::empty()) by {
        assert(skip_ws(nl, 1) == 1);
    }
    let sp = seq![' '];
    match c {
        CommandModel::Uci => {
            assert("uci\n"@ =~= "uci"@ + nl);
            lemma_words_head("uci"@, nl);
        },
        CommandModel::UciOk => {
            assert("uciok\n"@ =~= "uciok"@ + nl);
            lemma_words_head("uciok"@, nl);
        },
        CommandModel::ReadyOk => {
            assert("readyok\n"@ =~= "readyok"@ + nl);
            lemma_words_head("readyok"@, nl);
        },
        CommandModel::Stop => {
            assert("stop\n"@ =~= "stop"@ + nl);
            lemma_words_head("stop"@, nl);
        },
        CommandModel::Quit => {
            assert("quit\n"@ =~= "quit"@ + nl);
            lemma_words_head("quit"@, nl);
        },
        CommandModel::IsReady => {
            assert("isready\n"@ =~= "isready"@ + nl);
            lemma_words_head("isready"@, nl);
        },
        CommandModel::UciNewGame => {
            assert("ucinewgame\n"@ =~= "ucinewgame"@ + nl);
            lemma_words_head("ucinewgame"@, nl);
        },
        CommandModel::Debug(b) => {
            let v = if b { "on"@ } else { "off"@ };
            reveal_strlit("on");
            reveal_strlit("off");
            let text = "debug "@ + v + nl;
            assert(text =~= "debug"@ + (sp + (v + nl)));
            lemma_words_head(v, nl);
            lemma_words_space(sp, v + nl);
            lemma_words_head("debug"@, sp + (v + nl));
            assert(words(text) =~= seq!["debug"@, v]);
        },
        CommandModel::GoDepth(d) => {
            let ds = decimal(d as nat);
            lemma_decimal(d as nat);
            let text = "go depth "@ + ds + nl;
            assert(text =~= "go"@ + (sp + ("depth"@ + (sp + (ds + nl)))));
            lemma_words_head(ds, nl);
            lemma_words_space(sp, ds + nl);
            lemma_words_head("depth"@, sp + (ds + nl));
            lemma_words_space(sp, "depth"@ + (sp + (ds + nl)));
            lemma_words_head("go"@, sp + ("depth"@ + (sp + (ds + nl))));
            assert(words(text) =~= seq!["go"@, "depth"@, ds]);
            assert(48 <= (ds[0] as int) <= 57);
            assert(ds[0] != '+');
        },
        _ => {},
    }
}

impl UciPosition {
    /// The position as text: `startpos`, or `fen` and the FEN string.
    pub fn to_string(&self) -> (r: String)
        ensures
            r@ == (match self@ {
                None => "startpos"@,
                Some(f) => "fen "@ + f,
            }),
    {
        let mut buf: Vec<char> = Vec::new();
        match self {
            UciPosition::StartPos => push_str(&mut buf, "startpos"),
            UciPosition::Fen(fen) => {
                push_str(&mut buf, "fen ");
                push_str(&mut buf, fen.as_str());
            },
        }
        assert(buf@ =~= (match self@ {
            None => "startpos"@,
            Some(f) => "fen "@ + f,
        }));
        string_from_chars(&buf)
    }
}

} // verus!
