//! The commands the engine consumes, and the parsing of their textual
//! keyword/argument form: one command per line, fields separated by
//! single spaces.

use vstd::prelude::*;
use vstd::pervasive::unreached;
use crate::power::PowerType;

verus! {

/// One command of the driving loop. Setup commands mutate the board or
/// the player collection; `Turns` runs the engine.
#[derive(Debug, PartialEq, Eq)]
pub enum Command {
    /// Resize the board, reset every cell to plain, and mark the last cell
    /// winning.
    Board { columns: usize, rows: usize },
    /// Reset the players to the given count, all on cell 1, holding
    /// nothing.
    Players(usize),
    /// Replace the cyclic die sequence.
    Dice(Vec<u8>),
    /// Make cell `starts` a ladder start targeting `ends`.
    Ladder { starts: usize, ends: usize },
    /// Make cell `starts` a snake start targeting `ends`.
    Snake { starts: usize, ends: usize },
    /// Mark each listed cell as granting the powerup.
    PowerUps { typ: PowerType, cells: Vec<usize> },
    /// Play up to the given number of full rounds, or until a win.
    Turns(usize),
}

/// The mathematical view of a command: unbounded integers, and sequences
/// where the command carries a list.
pub enum CommandModel {
    Board { columns: int, rows: int },
    Players(int),
    Dice(Seq<u8>),
    Ladder { starts: int, ends: int },
    Snake { starts: int, ends: int },
    PowerUps { typ: PowerType, cells: Seq<int> },
    Turns(int),
}

impl View for Command {
    type V = CommandModel;

    open spec fn view(&self) -> CommandModel {
        match self {
            Command::Board { columns, rows } => CommandModel::Board {
                columns: *columns as int,
                rows: *rows as int,
            },
            Command::Players(n) => CommandModel::Players(*n as int),
            Command::Dice(ds) => CommandModel::Dice(ds@),
            Command::Ladder { starts, ends } => CommandModel::Ladder {
                starts: *starts as int,
                ends: *ends as int,
            },
            Command::Snake { starts, ends } => CommandModel::Snake {
                starts: *starts as int,
                ends: *ends as int,
            },
            Command::PowerUps { typ, cells } => CommandModel::PowerUps {
                typ: *typ,
                cells: cells@.map_values(|c: usize| c as int),
            },
            Command::Turns(n) => CommandModel::Turns(*n as int),
        }
    }
}

/// The position of the first space at or after `i`, or the length when
/// there is none.
pub open spec fn idx_space(s: Seq<char>, i: nat) -> nat
    decreases s.len() - i,
{
    if i >= s.len() {
        s.len()
    } else if s[i as int] == ' ' {
        i
    } else {
        idx_space(s, i + 1)
    }
}

/// A line split at every single space, all fields kept, empty ones
/// included.
pub open spec fn fields_of(s: Seq<char>) -> Seq<Seq<char>>
    decreases s.len(),
{
    let i = idx_space(s, 0);
    if i >= s.len() {
        seq![s]
    } else {
        seq![s.take(i as int)] + fields_of(s.skip(i as int + 1))
    }
}

/// The numeric value of a digit character; any other character is -1.
pub open spec fn digit_val(c: char) -> int {
    match c {
        '0' => 0,
        '1' => 1,
        '2' => 2,
        '3' => 3,
        '4' => 4,
        '5' => 5,
        '6' => 6,
        '7' => 7,
        '8' => 8,
        '9' => 9,
        _ => -1,
    }
}

/// A non-empty all-digit field: the only form a number takes.
pub open spec fn is_number(t: Seq<char>) -> bool {
    t.len() > 0 && forall|i: int| 0 <= i < t.len() ==> digit_val(#[trigger] t[i]) >= 0
}

/// The decimal value of a digit field.
pub open spec fn number_val(t: Seq<char>) -> int
    decreases t.len(),
{
    if t.len() == 0 {
        0
    } else {
        number_val(t.take(t.len() - 1)) * 10 + digit_val(t.last())
    }
}

/// The powerup a field names, if any.
pub open spec fn power_of(t: Seq<char>) -> Option<PowerType> {
    if t == "escalator"@ {
        Some(PowerType::Escalator)
    } else if t == "antivenom"@ {
        Some(PowerType::Antivenom)
    } else if t == "double"@ {
        Some(PowerType::Double)
    } else {
        None
    }
}

/// All fields from position `i` on are numbers no greater than `max`.
pub open spec fn all_numbers(toks: Seq<Seq<char>>, i: int, max: int) -> bool {
    forall|j: int|
        i <= j < toks.len() ==> is_number(#[trigger] toks[j]) && number_val(toks[j]) <= max
}

/// The command a line denotes, if it is legal: a known keyword, the arity
/// it demands, and numeric arguments that fit their carriers.
pub open spec fn line_command(s: Seq<char>) -> Option<CommandModel> {
    let toks = fields_of(s);
    let kw = toks[0];
    if kw == "board"@ && toks.len() == 3 && all_numbers(toks, 1, usize::MAX as int) {
        Some(CommandModel::Board { columns: number_val(toks[1]), rows: number_val(toks[2]) })
    } else if kw == "players"@ && toks.len() == 2 && all_numbers(toks, 1, u8::MAX as int) {
        Some(CommandModel::Players(number_val(toks[1])))
    } else if kw == "dice"@ && all_numbers(toks, 1, u8::MAX as int) {
        Some(
            CommandModel::Dice(
                Seq::new((toks.len() - 1) as nat, |i: int| number_val(toks[i + 1]) as u8),
            ),
        )
    } else if kw == "ladder"@ && toks.len() == 3 && all_numbers(toks, 1, usize::MAX as int) {
        Some(CommandModel::Ladder { starts: number_val(toks[1]), ends: number_val(toks[2]) })
    } else if kw == "snake"@ && toks.len() == 3 && all_numbers(toks, 1, usize::MAX as int) {
        Some(CommandModel::Snake { starts: number_val(toks[1]), ends: number_val(toks[2]) })
    } else if kw == "powerup"@ && toks.len() >= 2 && power_of(toks[1]) is Some && all_numbers(
        toks,
        2,
        usize::MAX as int,
    ) {
        match power_of(toks[1]) {
            Some(pt) => Some(
                CommandModel::PowerUps {
                    typ: pt,
                    cells: Seq::new((toks.len() - 2) as nat, |i: int| number_val(toks[i + 2])),
                },
            ),
            None => None,
        }
    } else if kw == "turns"@ && toks.len() == 2 && all_numbers(toks, 1, usize::MAX as int) {
        Some(CommandModel::Turns(number_val(toks[1])))
    } else {
        None
    }
}

/// Scanning for a space stops exactly at `k` when everything before `k`
/// is not a space and `k` is a space or the end.
proof fn lemma_idx_space_upto(s: Seq<char>, i: nat, k: nat)
    requires
        i <= k <= s.len(),
        forall|j: int| i <= j < k ==> s[j] != ' ',
        k < s.len() ==> s[k as int] == ' ',
    ensures
        idx_space(s, i) == k,
    decreases k - i,
{
    if i < k {
        lemma_idx_space_upto(s, i + 1, k);
    }
}

/// A spaceless text is a single field.
proof fn lemma_fields_single(t: Seq<char>)
    requires
        forall|j: int| 0 <= j < t.len() ==> t[j] != ' ',
    ensures
        fields_of(t) == seq![t],
{
    lemma_idx_space_upto(t, 0, t.len());
}

/// Splitting at the first space: a spaceless field before a space stands
/// alone, and the rest splits on its own.
proof fn lemma_fields_split(t: Seq<char>, rest: Seq<char>)
    requires
        forall|j: int| 0 <= j < t.len() ==> t[j] != ' ',
    ensures
        fields_of(t + seq![' '] + rest) == seq![t] + fields_of(rest),
{
    let s = t + seq![' '] + rest;
    assert(s[t.len() as int] == ' ');
    lemma_idx_space_upto(s, 0, t.len());
    assert(s.take(t.len() as int) =~= t);
    assert(s.skip(t.len() as int + 1) =~= rest);
}

/// Every prefix of a digit field has a non-negative value.
proof fn lemma_number_nonneg(t: Seq<char>, i: int)
    requires
        0 <= i <= t.len(),
        forall|j: int| 0 <= j < i ==> digit_val(#[trigger] t[j]) >= 0,
    ensures
        number_val(t.take(i)) >= 0,
    decreases i,
{
    if i > 0 {
        assert(t.take(i).take(i - 1) =~= t.take(i - 1));
        lemma_number_nonneg(t, i - 1);
    }
}

/// Extending a digit prefix never shrinks its value.
proof fn lemma_number_grows(t: Seq<char>, i: int)
    requires
        is_number(t),
        0 <= i <= t.len(),
    ensures
        number_val(t) >= number_val(t.take(i)),
    decreases t.len() - i,
{
    if i == t.len() {
        assert(t.take(i) =~= t);
    } else {
        assert(t.take(i + 1).take(i) =~= t.take(i));
        lemma_number_nonneg(t, i);
        lemma_number_grows(t, i + 1);
    }
}

/// Split a line at single spaces, keeping every field.
fn tokenize(line: &str) -> (toks: Vec<Vec<char>>)
    ensures
        toks@.len() == fields_of(line@).len(),
        forall|i: int| 0 <= i < toks@.len() ==> (#[trigger] toks@[i])@ == fields_of(line@)[i],
{
    let n = line.unicode_len();
    let mut toks: Vec<Vec<char>> = Vec::new();
    let mut cur: Vec<char> = Vec::new();
    let ghost mut done: Seq<Seq<char>> = Seq::empty();
    proof {
        assert(cur@ + line@.skip(0) =~= line@);
        assert(Seq::<Seq<char>>::empty() + fields_of(line@) =~= fields_of(line@));
    }
    let mut i: usize = 0;
    while i < n
        invariant
            n == line@.len(),
            i <= n,
            forall|j: int| 0 <= j < cur@.len() ==> cur@[j] != ' ',
            done.len() == toks@.len(),
            forall|k: int| 0 <= k < toks@.len() ==> (#[trigger] toks@[k])@ == done[k],
            fields_of(line@) == done + fields_of(cur@ + line@.skip(i as int)),
        decreases n - i,
    {
        let c = line.get_char(i);
        if c == ' ' {
            proof {
                assert(cur@ + line@.skip(i as int) =~= cur@ + seq![' '] + line@.skip(i as int + 1));
                lemma_fields_split(cur@, line@.skip(i as int + 1));
                assert(Seq::<char>::empty() + line@.skip(i as int + 1) =~= line@.skip(
                    i as int + 1,
                ));
                assert(done + (seq![cur@] + fields_of(line@.skip(i as int + 1))) =~= done.push(cur@)
                    + fields_of(line@.skip(i as int + 1)));
            }
            toks.push(cur);
            proof {
                done = done.push(cur@);
            }
            cur = Vec::new();
        } else {
            proof {
                assert(cur@ + line@.skip(i as int) =~= cur@.push(c) + line@.skip(i as int + 1));
            }
            cur.push(c);
        }
        i += 1;
    }
    proof {
        assert(cur@ + line@.skip(n as int) =~= cur@);
        lemma_fields_single(cur@);
        assert(done + seq![cur@] =~= done.push(cur@));
    }
    toks.push(cur);
    toks
}

/// Parse a field as a decimal number that fits `usize`: `None` exactly
/// when the field is not a non-empty digit string whose value fits.
fn parse_number(t: &Vec<char>) -> (r: Option<usize>)
    ensures
        match r {
            Some(v) => is_number(t@) && number_val(t@) == v,
            None => !(is_number(t@) && number_val(t@) <= usize::MAX),
        },
{
    if t.len() == 0 {
        return None;
    }
    let mut acc: usize = 0;
    let mut i: usize = 0;
    while i < t.len()
        invariant
            0 < t@.len(),
            i <= t@.len(),
            forall|j: int| 0 <= j < i ==> digit_val(#[trigger] t@[j]) >= 0,
            acc == number_val(t@.take(i as int)),
        decreases t@.len() - i,
    {
        let c = t[i];
        let dv: usize = match c {
            '0' => 0,
            '1' => 1,
            '2' => 2,
            '3' => 3,
            '4' => 4,
            '5' => 5,
            '6' => 6,
            '7' => 7,
            '8' => 8,
            '9' => 9,
            _ => {
                proof {
                    assert(digit_val(t@[i as int]) == -1);
                }
                return None;
            },
        };
        proof {
            assert(digit_val(t@[i as int]) == dv);
            assert(t@.take(i as int + 1).take(i as int) =~= t@.take(i as int));
            assert(t@.take(i as int + 1).last() == t@[i as int]);
        }
        let next = match acc.checked_mul(10) {
            Some(x) => x.checked_add(dv),
            None => None,
        };
        match next {
            Some(x) => {
                acc = x;
            },
            None => {
                proof {
                    assert(number_val(t@.take(i as int + 1)) > usize::MAX);
                    if is_number(t@) {
                        lemma_number_grows(t@, i as int + 1);
                    }
                }
                return None;
            },
        }
        i += 1;
    }
    proof {
        assert(t@.take(t@.len() as int) =~= t@);
    }
    Some(acc)
}

/// Parse a field as a decimal number that fits a die face: `None`
/// exactly when the field is not a non-empty digit string with a value
/// up to 255.
fn parse_number_u8(t: &Vec<char>) -> (r: Option<u8>)
    ensures
        match r {
            Some(v) => is_number(t@) && number_val(t@) == v,
            None => !(is_number(t@) && number_val(t@) <= u8::MAX),
        },
{
    match parse_number(t) {
        Some(v) => if v <= 255 {
            Some(v as u8)
        } else {
            None
        },
        None => None,
    }
}

/// Whether the field spells exactly the given keyword.
fn field_is(t: &Vec<char>, lit: &str) -> (r: bool)
    ensures
        r == (t@ == lit@),
{
    let n = lit.unicode_len();
    if t.len() != n {
        return false;
    }
    let mut i: usize = 0;
    while i < n
        invariant
            n == lit@.len(),
            t@.len() == n,
            i <= n,
            forall|j: int| 0 <= j < i ==> t@[j] == lit@[j],
        decreases n - i,
    {
        if t[i] != lit.get_char(i) {
            return false;
        }
        i += 1;
    }
    proof {
        assert(t@ =~= lit@);
    }
    true
}

/// The powerup a field names, if any.
fn power_field(t: &Vec<char>) -> (r: Option<PowerType>)
    ensures
        r == power_of(t@),
{
    if field_is(t, "escalator") {
        Some(PowerType::Escalator)
    } else if field_is(t, "antivenom") {
        Some(PowerType::Antivenom)
    } else if field_is(t, "double") {
        Some(PowerType::Double)
    } else {
        None
    }
}

/// The characters of a text, in order.
fn str_chars(s: &str) -> (r: Vec<char>)
    ensures
        r@ == s@,
{
    let n = s.unicode_len();
    let mut v: Vec<char> = Vec::new();
    let mut i: usize = 0;
    while i < n
        invariant
            n == s@.len(),
            i <= n,
            v@ =~= s@.take(i as int),
        decreases n - i,
    {
        v.push(s.get_char(i));
        i += 1;
    }
    proof {
        assert(s@.take(n as int) =~= s@);
    }
    v
}

/// The seven command keywords are pairwise distinct words.
proof fn lemma_keywords_distinct()
    ensures
        "board"@ != "players"@,
        "board"@ != "dice"@,
        "board"@ != "ladder"@,
        "board"@ != "snake"@,
        "board"@ != "powerup"@,
        "board"@ != "turns"@,
        "players"@ != "dice"@,
        "players"@ != "ladder"@,
        "players"@ != "snake"@,
        "players"@ != "powerup"@,
        "players"@ != "turns"@,
        "dice"@ != "ladder"@,
        "dice"@ != "snake"@,
        "dice"@ != "powerup"@,
        "dice"@ != "turns"@,
        "ladder"@ != "snake"@,
        "ladder"@ != "powerup"@,
        "ladder"@ != "turns"@,
        "snake"@ != "powerup"@,
        "snake"@ != "turns"@,
        "powerup"@ != "turns"@,
{
    reveal_strlit("board");
    reveal_strlit("players");
    reveal_strlit("dice");
    reveal_strlit("ladder");
    reveal_strlit("snake");
    reveal_strlit("powerup");
    reveal_strlit("turns");
    assert("board"@.len() == 5);
    assert("players"@.len() == 7);
    assert("dice"@.len() == 4);
    assert("ladder"@.len() == 6);
    assert("snake"@.len() == 5);
    assert("powerup"@.len() == 7);
    assert("turns"@.len() == 5);
    assert("board"@[0] == 'b');
    assert("players"@[0] == 'p');
    assert("snake"@[0] == 's');
    assert("powerup"@[0] == 'p');
    assert("turns"@[0] == 't');
    assert("players"@[1] == 'l');
    assert("powerup"@[1] == 'o');
}

impl PowerType {
    /// The powerup the given keyword names, if it names one.
    pub fn from_name(name: &str) -> (r: Option<PowerType>)
        ensures
            r == power_of(name@),
    {
        let cs = str_chars(name);
        power_field(&cs)
    }

    /// The powerup the given keyword names; the caller vouches that the
    /// keyword is one of the three.
    pub fn new(name: &str) -> (r: PowerType)
        requires
            power_of(name@) is Some,
        ensures
            Some(r) == power_of(name@),
    {
        match Self::from_name(name) {
            Some(pt) => pt,
            None => unreached(),
        }
    }
}

impl Command {
    /// Parse one line into a command: `None` exactly when the line is not
    /// a legal command.
    pub fn try_read(line: &str) -> (r: Option<Command>)
        ensures
            match r {
                Some(c) => line_command(line@) == Some(c@),
                None => line_command(line@) is None,
            },
    {
        let ghost fv = fields_of(line@);
        let toks = tokenize(line);
        proof {
            lemma_keywords_distinct();
            assert(fv.len() >= 1);
        }
        let kw = &toks[0];
        let r = if field_is(kw, "board") {
            if toks.len() == 3 {
                match (parse_number(&toks[1]), parse_number(&toks[2])) {
                    (Some(columns), Some(rows)) => {
                        proof {
                            assert(all_numbers(fv, 1, usize::MAX as int));
                        }
                        Some(Command::Board { columns, rows })
                    },
                    _ => {
                    proof {
                        assert(line_command(line@) is None);
                    }
                    None
                },
                }
            } else {
                proof {
                    assert(line_command(line@) is None);
                }
                None
            }
        } else if field_is(kw, "players") {
            if toks.len() == 2 {
                match parse_number_u8(&toks[1]) {
                    Some(n) => {
                        proof {
                            assert(all_numbers(fv, 1, u8::MAX as int));
                        }
                        Some(Command::Players(n as usize))
                    },
                    None => {
                    proof {
                        assert(line_command(line@) is None);
                    }
                    None
                },
                }
            } else {
                proof {
                    assert(line_command(line@) is None);
                }
                None
            }
        } else if field_is(kw, "dice") {
            let mut ds: Vec<u8> = Vec::new();
            let mut ok: bool = true;
            let mut i: usize = 1;
            while i < toks.len()
                invariant_except_break
                    ok,
                    1 <= i <= toks@.len(),
                    ds@.len() == i - 1,
                    forall|j: int|
                        1 <= j < i ==> is_number(#[trigger] fv[j]) && number_val(fv[j])
                            <= u8::MAX,
                    forall|j: int| 0 <= j < i - 1 ==> ds@[j] == number_val(fv[j + 1]),
                invariant
                    toks@.len() == fv.len(),
                    forall|k: int| 0 <= k < toks@.len() ==> (#[trigger] toks@[k])@ == fv[k],
                ensures
                    ok ==> {
                        &&& ds@.len() == toks@.len() - 1
                        &&& all_numbers(fv, 1, u8::MAX as int)
                        &&& forall|j: int|
                            0 <= j < ds@.len() ==> ds@[j] == number_val(fv[j + 1])
                    },
                    !ok ==> !all_numbers(fv, 1, u8::MAX as int),
                decreases toks@.len() - i,
            {
                match parse_number_u8(&toks[i]) {
                    Some(v) => {
                        ds.push(v);
                    },
                    None => {
                        proof {
                            assert(!(is_number(fv[i as int]) && number_val(fv[i as int])
                                <= u8::MAX));
                        }
                        ok = false;
                        break;
                    },
                }
                i += 1;
            }
            if ok {
                proof {
                    assert(ds@ =~= Seq::new(
                        (fv.len() - 1) as nat,
                        |i: int| number_val(fv[i + 1]) as u8,
                    ));
                }
                Some(Command::Dice(ds))
            } else {
                proof {
                    assert(line_command(line@) is None);
                }
                None
            }
        } else if field_is(kw, "ladder") {
            if toks.len() == 3 {
                match (parse_number(&toks[1]), parse_number(&toks[2])) {
                    (Some(starts), Some(ends)) => {
                        proof {
                            assert(all_numbers(fv, 1, usize::MAX as int));
                        }
                        Some(Command::Ladder { starts, ends })
                    },
                    _ => {
                    proof {
                        assert(line_command(line@) is None);
                    }
                    None
                },
                }
            } else {
                proof {
                    assert(line_command(line@) is None);
                }
                None
            }
        } else if field_is(kw, "snake") {
            if toks.len() == 3 {
                match (parse_number(&toks[1]), parse_number(&toks[2])) {
                    (Some(starts), Some(ends)) => {
                        proof {
                            assert(all_numbers(fv, 1, usize::MAX as int));
                        }
                        Some(Command::Snake { starts, ends })
                    },
                    _ => {
                    proof {
                        assert(line_command(line@) is None);
                    }
                    None
                },
                }
            } else {
                proof {
                    assert(line_command(line@) is None);
                }
                None
            }
        } else if field_is(kw, "powerup") {
            if toks.len() < 2 {
                proof {
                    assert(line_command(line@) is None);
                }
                None
            } else {
                match power_field(&toks[1]) {
                    None => {
                    proof {
                        assert(line_command(line@) is None);
                    }
                    None
                },
                    Some(typ) => {
                        let mut cs: Vec<usize> = Vec::new();
                        let mut ok: bool = true;
                        let mut i: usize = 2;
                        while i < toks.len()
                            invariant_except_break
                                ok,
                                2 <= i <= toks@.len(),
                                cs@.len() == i - 2,
                                forall|j: int|
                                    2 <= j < i ==> is_number(#[trigger] fv[j]) && number_val(
                                        fv[j],
                                    ) <= usize::MAX,
                                forall|j: int| 0 <= j < i - 2 ==> cs@[j] == number_val(fv[j + 2]),
                            invariant
                                toks@.len() == fv.len(),
                                forall|k: int|
                                    0 <= k < toks@.len() ==> (#[trigger] toks@[k])@ == fv[k],
                            ensures
                                ok ==> {
                                    &&& cs@.len() == toks@.len() - 2
                                    &&& all_numbers(fv, 2, usize::MAX as int)
                                    &&& forall|j: int|
                                        0 <= j < cs@.len() ==> cs@[j] == number_val(fv[j + 2])
                                },
                                !ok ==> !all_numbers(fv, 2, usize::MAX as int),
                            decreases toks@.len() - i,
                        {
                            match parse_number(&toks[i]) {
                                Some(v) => {
                                    cs.push(v);
                                },
                                None => {
                                    proof {
                                        assert(!(is_number(fv[i as int]) && number_val(
                                            fv[i as int],
                                        ) <= usize::MAX));
                                    }
                                    ok = false;
                                    break;
                                },
                            }
                            i += 1;
                        }
                        if ok {
                            proof {
                                assert(cs@.map_values(|c: usize| c as int) =~= Seq::new(
                                    (fv.len() - 2) as nat,
                                    |i: int| number_val(fv[i + 2]),
                                ));
                            }
                            Some(Command::PowerUps { typ, cells: cs })
                        } else {
                            proof {
                                reveal_strlit("board");
                                reveal_strlit("players");
                                reveal_strlit("dice");
                                reveal_strlit("ladder");
                                reveal_strlit("snake");
                                reveal_strlit("powerup");
                                reveal_strlit("turns");
                                assert(line_command(line@) is None);
                            }
                            None
                        }
                    },
                }
            }
        } else if field_is(kw, "turns") {
            if toks.len() == 2 {
                match parse_number(&toks[1]) {
                    Some(n) => {
                        proof {
                            assert(all_numbers(fv, 1, usize::MAX as int));
                        }
                        Some(Command::Turns(n))
                    },
                    None => {
                    proof {
                        assert(line_command(line@) is None);
                    }
                    None
                },
                }
            } else {
                proof {
                    assert(line_command(line@) is None);
                }
                None
            }
        } else {
            proof {
                reveal_strlit("board");
                reveal_strlit("players");
                reveal_strlit("dice");
                reveal_strlit("ladder");
                reveal_strlit("snake");
                reveal_strlit("powerup");
                reveal_strlit("turns");
                assert(line_command(line@) is None);
            }
            None
        };
        r
    }

    /// Parse one line; the caller vouches that the line is a legal
    /// command.
    #[allow(non_snake_case)]
    pub fn readFrom(line: String) -> (r: Command)
        requires
            line_command(line@) is Some,
        ensures
            line_command(line@) == Some(r@),
    {
        match Self::try_read(line.as_str()) {
            Some(c) => c,
            None => unreached(),
        }
    }
}

} // verus!
