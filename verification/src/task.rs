//! Tasks: the record shape, its variant payload, and the payload framing.
//!
//! A task's variant payload (its kind) is stored pre-serialized as an opaque
//! text blob (`task_json`) that the persistence engine never inspects.  The
//! framing is fixed-width: a tag character, then each payload string prefixed
//! by its character count as twenty decimal digits.  `encode_task_kind` and
//! `decode_task_kind` are exact inverses on every payload the library can
//! hold (see `lemma_kind_encoding_injective`).

use crate::digits::digits_be;
use crate::digits::digits_of;
use crate::digits::lemma_digits_bounds;
use crate::digits::lemma_digits_len;
use crate::digits::lemma_digits_val;
use crate::digits::lemma_val_digits;
use crate::digits::pow_n;
use crate::digits::val_of;
use crate::completion::is_pair;
use crate::completion::open_effect;
use crate::completion::pair_key;
use crate::completion::read_by;
use crate::completion::CompletionInDb;
use crate::db::Db;
use crate::error::AppError;
use crate::error::DtoValidationError;
use crate::store::Store;
use crate::store::StoreError;
use crate::traits::byte_len;
use crate::traits::DtoValidator;
use crate::types::Identifier;
use crate::types::IdGen;
use vstd::prelude::*;

verus! {

/// The stored task record; `task_json` carries the encoded kind.
#[derive(Debug)]
pub struct TaskInDb {
    pub id: Identifier,
    pub name: String,
    pub task_json: String,
    pub solution: String,
}

/// One row of the "tasks with completion status" query: a task joined with
/// the identifier of the agent's non-null completion, where one exists.
#[derive(Debug)]
pub struct TaskWithCompletionInDb {
    pub id: Identifier,
    pub name: String,
    pub task_json: String,
    pub solution: String,
    pub completion_id: Option<Identifier>,
}

/// A task as handed to an agent: the solution is never part of it.
#[allow(non_snake_case)]
#[derive(Debug)]
pub struct TaskDto {
    pub name: String,
    pub taskType: TaskTypeDto,
}

/// One line of the task listing for an agent.
#[allow(non_snake_case)]
#[derive(Debug)]
pub struct TasksDto {
    pub id: Identifier,
    pub name: String,
    pub completed: bool,
    /// The completion time in whole unix seconds, where the agent completed
    /// the task.
    pub time: Option<i64>,
}

/// The shape an administrative caller supplies to create a task.
#[allow(non_snake_case)]
#[derive(Debug)]
pub struct TaskCreateDto {
    pub name: String,
    pub taskType: TaskTypeDto,
    pub solution: String,
}

/// The closed set of task kinds; only the shape differs between them.
#[derive(Debug)]
pub enum TaskTypeDto {
    SimpleTask { description: String },
    AdventOfCodePartOne { description: String, input: String },
    AdventOfCodePartTwo { description: String, input: String },
}

/// The bearer token an agent presents to act on its own tasks.
#[derive(Clone, Copy, Debug)]
pub struct AgentToken {
    pub token: Identifier,
}

/// The mathematical value of a task kind: its variant and payload strings.
pub enum TaskKindView {
    Simple { description: Seq<char> },
    PartOne { description: Seq<char>, input: Seq<char> },
    PartTwo { description: Seq<char>, input: Seq<char> },
}

impl View for TaskTypeDto {
    type V = TaskKindView;

    open spec fn view(&self) -> TaskKindView {
        match self {
            TaskTypeDto::SimpleTask { description } => TaskKindView::Simple {
                description: description@,
            },
            TaskTypeDto::AdventOfCodePartOne { description, input } => TaskKindView::PartOne {
                description: description@,
                input: input@,
            },
            TaskTypeDto::AdventOfCodePartTwo { description, input } => TaskKindView::PartTwo {
                description: description@,
                input: input@,
            },
        }
    }
}

/// A payload the library can hold: each string fits in memory.
pub open spec fn bounded_kind(kv: TaskKindView) -> bool {
    match kv {
        TaskKindView::Simple { description } => description.len() <= usize::MAX,
        TaskKindView::PartOne { description, input } => description.len() <= usize::MAX
            && input.len() <= usize::MAX,
        TaskKindView::PartTwo { description, input } => description.len() <= usize::MAX
            && input.len() <= usize::MAX,
    }
}

/// The decimal digit characters.
pub open spec fn dec_char(d: nat) -> char {
    if d == 0 {
        '0'
    } else if d == 1 {
        '1'
    } else if d == 2 {
        '2'
    } else if d == 3 {
        '3'
    } else if d == 4 {
        '4'
    } else if d == 5 {
        '5'
    } else if d == 6 {
        '6'
    } else if d == 7 {
        '7'
    } else if d == 8 {
        '8'
    } else {
        '9'
    }
}

pub open spec fn is_dec_digit(c: char) -> bool {
    c == '0' || c == '1' || c == '2' || c == '3' || c == '4' || c == '5' || c == '6' || c == '7'
        || c == '8' || c == '9'
}

/// A length as exactly twenty decimal digit characters, most significant
/// first.
pub open spec fn len20(n: nat) -> Seq<char> {
    digits_be(n, 20, 10).map_values(|d: nat| dec_char(d))
}

/// The canonical text encoding of a task kind.
pub open spec fn kind_encoding(kv: TaskKindView) -> Seq<char> {
    match kv {
        TaskKindView::Simple { description } => seq!['S'] + len20(description.len()) + description,
        TaskKindView::PartOne { description, input } => seq!['1'] + len20(description.len())
            + description + len20(input.len()) + input,
        TaskKindView::PartTwo { description, input } => seq!['2'] + len20(description.len())
            + description + len20(input.len()) + input,
    }
}

/// `10^20`, the first length the twenty-digit prefix cannot carry, and the
/// bound every in-memory length is below.
proof fn lemma_len20_space()
    ensures
        pow_n(10, 20) == 0x56bc75e2d63100000,
        pow_n(10, 19) <= u128::MAX,
        usize::MAX < pow_n(10, 20),
        pow_n(10, 20) <= u128::MAX as nat + 1,
{
    reveal_with_fuel(pow_n, 21);
}

/// The twenty-digit length prefix of an in-memory length is made of decimal
/// digit characters only.
proof fn lemma_len20_shape(n: nat)
    requires
        n < pow_n(10, 20),
    ensures
        len20(n).len() == 20,
        forall|j: int| 0 <= j < 20 ==> is_dec_digit(#[trigger] len20(n)[j]),
{
    lemma_digits_len(n, 20, 10);
    lemma_digits_bounds(n, 20, 10);
    assert forall|j: int| 0 <= j < 20 implies is_dec_digit(#[trigger] len20(n)[j]) by {
        let d = digits_be(n, 20, 10)[j];
        assert(d < 10);
        assert(len20(n)[j] == dec_char(d));
    }
}

/// Two in-memory lengths with the same twenty-digit prefix are equal.
proof fn lemma_len20_injective(n1: nat, n2: nat)
    requires
        n1 < pow_n(10, 20),
        n2 < pow_n(10, 20),
        len20(n1) == len20(n2),
    ensures
        n1 == n2,
{
    lemma_digits_len(n1, 20, 10);
    lemma_digits_len(n2, 20, 10);
    lemma_digits_bounds(n1, 20, 10);
    lemma_digits_bounds(n2, 20, 10);
    let d1 = digits_be(n1, 20, 10);
    let d2 = digits_be(n2, 20, 10);
    assert forall|j: int| 0 <= j < 20 implies d1[j] == d2[j] by {
        assert(len20(n1)[j] == dec_char(d1[j]));
        assert(len20(n2)[j] == dec_char(d2[j]));
        assert(d1[j] < 10 && d2[j] < 10);
    }
    assert(d1 =~= d2);
    lemma_val_digits(n1, 20, 10);
    lemma_val_digits(n2, 20, 10);
}

/// Equal encodings come from equal payloads: the encoding is injective on
/// every payload the library can hold, so decoding is unambiguous.
pub proof fn lemma_kind_encoding_injective(a: TaskKindView, b: TaskKindView)
    requires
        bounded_kind(a),
        bounded_kind(b),
        kind_encoding(a) == kind_encoding(b),
    ensures
        a == b,
{
    lemma_len20_space();
    let ea = kind_encoding(a);
    let eb = kind_encoding(b);
    assert(ea[0] == eb[0]);
    match a {
        TaskKindView::Simple { description: da } => {
            lemma_len20_shape(da.len());
            match b {
                TaskKindView::Simple { description: db } => {
                    lemma_len20_shape(db.len());
                    assert(len20(da.len()) =~= ea.subrange(1, 21));
                    assert(len20(db.len()) =~= eb.subrange(1, 21));
                    lemma_len20_injective(da.len(), db.len());
                    assert(da =~= ea.subrange(21, ea.len() as int));
                    assert(db =~= eb.subrange(21, eb.len() as int));
                },
                TaskKindView::PartOne { .. } => {
                    assert(ea[0] == 'S' && eb[0] == '1');
                },
                TaskKindView::PartTwo { .. } => {
                    assert(ea[0] == 'S' && eb[0] == '2');
                },
            }
        },
        TaskKindView::PartOne { description: da, input: ia } => {
            match b {
                TaskKindView::Simple { .. } => {
                    assert(ea[0] == '1' && eb[0] == 'S');
                },
                TaskKindView::PartOne { description: db, input: ib } => {
                    lemma_len20_shape(da.len());
                    lemma_len20_shape(ia.len());
                    lemma_len20_shape(db.len());
                    lemma_len20_shape(ib.len());
                    assert(ea.subrange(1, ea.len() as int) =~= len20(da.len()) + da + len20(
                        ia.len(),
                    ) + ia);
                    assert(eb.subrange(1, eb.len() as int) =~= len20(db.len()) + db + len20(
                        ib.len(),
                    ) + ib);
                    lemma_two_part_encoding_injective(da, ia, db, ib, ea, eb);
                },
                TaskKindView::PartTwo { .. } => {
                    assert(ea[0] == '1' && eb[0] == '2');
                },
            }
        },
        TaskKindView::PartTwo { description: da, input: ia } => {
            match b {
                TaskKindView::Simple { .. } => {
                    assert(ea[0] == '2' && eb[0] == 'S');
                },
                TaskKindView::PartOne { .. } => {
                    assert(ea[0] == '2' && eb[0] == '1');
                },
                TaskKindView::PartTwo { description: db, input: ib } => {
                    lemma_len20_shape(da.len());
                    lemma_len20_shape(ia.len());
                    lemma_len20_shape(db.len());
                    lemma_len20_shape(ib.len());
                    assert(ea.subrange(1, ea.len() as int) =~= len20(da.len()) + da + len20(
                        ia.len(),
                    ) + ia);
                    assert(eb.subrange(1, eb.len() as int) =~= len20(db.len()) + db + len20(
                        ib.len(),
                    ) + ib);
                    lemma_two_part_encoding_injective(da, ia, db, ib, ea, eb);
                },
            }
        },
    }
}

/// Injectivity of the two-string encodings, shared by both advent-of-code
/// kinds: equal encodings force equal descriptions, then equal inputs.
proof fn lemma_two_part_encoding_injective(
    da: Seq<char>,
    ia: Seq<char>,
    db: Seq<char>,
    ib: Seq<char>,
    ea: Seq<char>,
    eb: Seq<char>,
)
    requires
        da.len() <= usize::MAX,
        ia.len() <= usize::MAX,
        db.len() <= usize::MAX,
        ib.len() <= usize::MAX,
        ea == eb,
        ea.len() >= 1,
        ea.subrange(1, ea.len() as int) == len20(da.len()) + da + len20(ia.len()) + ia,
        eb.subrange(1, eb.len() as int) == len20(db.len()) + db + len20(ib.len()) + ib,
    ensures
        da == db,
        ia == ib,
{
    lemma_len20_space();
    lemma_len20_shape(da.len());
    lemma_len20_shape(db.len());
    lemma_len20_shape(ia.len());
    lemma_len20_shape(ib.len());
    let ta = ea.subrange(1, ea.len() as int);
    let tb = eb.subrange(1, eb.len() as int);
    assert(ta == tb);
    assert(len20(da.len()) =~= ta.subrange(0, 20));
    assert(len20(db.len()) =~= tb.subrange(0, 20));
    lemma_len20_injective(da.len(), db.len());
    let dl = da.len() as int;
    assert(da =~= ta.subrange(20, 20 + dl));
    assert(db =~= tb.subrange(20, 20 + dl));
    assert(len20(ia.len()) =~= ta.subrange(20 + dl, 40 + dl));
    assert(len20(ib.len()) =~= tb.subrange(20 + dl, 40 + dl));
    lemma_len20_injective(ia.len(), ib.len());
    let il = ia.len() as int;
    assert(ia =~= ta.subrange(40 + dl, 40 + dl + il));
    assert(ib =~= tb.subrange(40 + dl, 40 + dl + il));
}

/// The decimal digit character for a digit value.
fn dec_str(d: u8) -> (r: &'static str)
    requires
        d < 10,
    ensures
        r@ =~= seq![dec_char(d as nat)],
{
    proof {
        reveal_strlit("0");
        reveal_strlit("1");
        reveal_strlit("2");
        reveal_strlit("3");
        reveal_strlit("4");
        reveal_strlit("5");
        reveal_strlit("6");
        reveal_strlit("7");
        reveal_strlit("8");
        reveal_strlit("9");
    }
    match d {
        0 => "0",
        1 => "1",
        2 => "2",
        3 => "3",
        4 => "4",
        5 => "5",
        6 => "6",
        7 => "7",
        8 => "8",
        _ => "9",
    }
}

/// Appends the twenty-digit decimal form of `n`.
fn push_len20(out: &mut String, n: usize)
    ensures
        final(out)@ == old(out)@ + len20(n as nat),
{
    proof {
        lemma_len20_space();
    }
    let ds = digits_of(n as u128, 20, 10);
    let ghost digs = digits_be(n as nat, 20, 10);
    proof {
        lemma_digits_bounds(n as nat, 20, 10);
    }
    let mut i: usize = 0;
    while i < 20
        invariant
            i <= 20,
            ds@.len() == 20,
            ds@.map_values(|d: u8| d as nat) == digs,
            digs == digits_be(n as nat, 20, 10),
            forall|j: int| 0 <= j < 20 ==> #[trigger] digs[j] < 10,
            out@ == old(out)@ + len20(n as nat).take(i as int),
        decreases 20 - i,
    {
        proof {
            assert(digs[i as int] == ds@.map_values(|d: u8| d as nat)[i as int]);
            assert(len20(n as nat).take(i as int + 1) =~= len20(n as nat).take(i as int).push(
                dec_char(digs[i as int]),
            ));
        }
        let d = ds[i];
        out.append(dec_str(d));
        i = i + 1;
    }
    proof {
        assert(len20(n as nat).take(20) =~= len20(n as nat));
    }
}

/// Encodes a task kind as its canonical text blob.
pub fn encode_task_kind(kind: &TaskTypeDto) -> (r: String)
    ensures
        r@ == kind_encoding(kind@),
        bounded_kind(kind@),
{
    proof {
        reveal_strlit("S");
        reveal_strlit("1");
        reveal_strlit("2");
    }
    match kind {
        TaskTypeDto::SimpleTask { description } => {
            let mut out = String::from_str("S");
            proof {
                assert(out@ =~= seq!['S']);
            }
            push_len20(&mut out, description.as_str().unicode_len());
            out.append(description.as_str());
            proof {
                assert(out@ =~= kind_encoding(kind@));
            }
            out
        },
        TaskTypeDto::AdventOfCodePartOne { description, input } => {
            let mut out = String::from_str("1");
            proof {
                assert(out@ =~= seq!['1']);
            }
            push_len20(&mut out, description.as_str().unicode_len());
            out.append(description.as_str());
            push_len20(&mut out, input.as_str().unicode_len());
            out.append(input.as_str());
            proof {
                assert(out@ =~= kind_encoding(kind@));
            }
            out
        },
        TaskTypeDto::AdventOfCodePartTwo { description, input } => {
            let mut out = String::from_str("2");
            proof {
                assert(out@ =~= seq!['2']);
            }
            push_len20(&mut out, description.as_str().unicode_len());
            out.append(description.as_str());
            push_len20(&mut out, input.as_str().unicode_len());
            out.append(input.as_str());
            proof {
                assert(out@ =~= kind_encoding(kind@));
            }
            out
        },
    }
}


/// The digit value of a decimal digit character.
fn dec_val(c: char) -> (r: Option<u8>)
    ensures
        match r {
            Some(d) => d < 10 && c == dec_char(d as nat),
            None => !is_dec_digit(c),
        },
{
    match c {
        '0' => Some(0),
        '1' => Some(1),
        '2' => Some(2),
        '3' => Some(3),
        '4' => Some(4),
        '5' => Some(5),
        '6' => Some(6),
        '7' => Some(7),
        '8' => Some(8),
        '9' => Some(9),
        _ => None,
    }
}

/// Reads the twenty-digit length at `pos`: succeeds exactly when the twenty
/// characters there are the decimal form of an in-memory length.
fn parse_len20(s: &str, pos: usize) -> (r: Option<usize>)
    requires
        pos + 20 <= s@.len(),
        pos + 20 <= usize::MAX,
    ensures
        match r {
            Some(v) => s@.subrange(pos as int, pos as int + 20) == len20(v as nat),
            None => forall|m: nat|
                m <= usize::MAX ==> s@.subrange(pos as int, pos as int + 20) != len20(m),
        },
{
    let mut digits: Vec<u8> = Vec::new();
    let mut i: usize = 0;
    while i < 20
        invariant
            pos + 20 <= s@.len(),
            pos + 20 <= usize::MAX,
            i <= 20,
            digits@.len() == i,
            forall|j: int|
                0 <= j < i ==> (#[trigger] digits@[j]) < 10 && s@[pos + j] == dec_char(
                    digits@[j] as nat,
                ),
        decreases 20 - i,
    {
        let c = s.get_char(pos + i);
        match dec_val(c) {
            Some(d) => {
                digits.push(d);
            },
            None => {
                proof {
                    lemma_len20_space();
                    assert forall|m: nat| m <= usize::MAX implies s@.subrange(
                        pos as int,
                        pos as int + 20,
                    ) != len20(m) by {
                        lemma_len20_shape(m);
                        if s@.subrange(pos as int, pos as int + 20) == len20(m) {
                            assert(len20(m)[i as int] == s@.subrange(
                                pos as int,
                                pos as int + 20,
                            )[i as int]);
                            assert(is_dec_digit(s@[pos + i]));
                        }
                    }
                }
                return None;
            },
        }
        i = i + 1;
    }
    proof {
        lemma_len20_space();
        lemma_digits_val(digits@.map_values(|d: u8| d as nat), 10);
        crate::digits::lemma_val_lt(digits@.map_values(|d: u8| d as nat), 10);
    }
    let v128 = val_of(&digits, 10);
    proof {
        assert(digits_be(v128 as nat, 20, 10) == digits@.map_values(|d: u8| d as nat));
        assert(s@.subrange(pos as int, pos as int + 20) =~= len20(v128 as nat));
    }
    if v128 <= (usize::MAX as u128) {
        Some(v128 as usize)
    } else {
        proof {
            assert forall|m: nat| m <= usize::MAX implies s@.subrange(pos as int, pos as int + 20)
                != len20(m) by {
                if s@.subrange(pos as int, pos as int + 20) == len20(m) {
                    lemma_len20_injective(m, v128 as nat);
                }
            }
        }
        None
    }
}

/// Reads the two length-prefixed strings after the tag character: succeeds
/// exactly when the rest of `s` is such a pair.
fn parse_two_part(s: &str) -> (r: Option<(String, String)>)
    requires
        s@.len() >= 21,
    ensures
        match r {
            Some((d, i)) => d@.len() <= usize::MAX && i@.len() <= usize::MAX && s@.subrange(
                1,
                s@.len() as int,
            ) == len20(d@.len()) + d@ + len20(i@.len()) + i@,
            None => forall|d: Seq<char>, i: Seq<char>|
                d.len() <= usize::MAX && i.len() <= usize::MAX ==> s@.subrange(1, s@.len() as int)
                    != len20(d.len()) + d + len20(i.len()) + i,
        },
{
    let n = s.unicode_len();
    let ghost tail = s@.subrange(1, s@.len() as int);
    proof {
        lemma_len20_space();
    }
    let dlen_opt = parse_len20(s, 1);
    let dlen = match dlen_opt {
        Some(v) => v,
        None => {
            proof {
                assert forall|d: Seq<char>, i: Seq<char>|
                    d.len() <= usize::MAX && i.len() <= usize::MAX implies tail != len20(d.len())
                    + d + len20(i.len()) + i by {
                    lemma_len20_shape(d.len());
                    if tail == len20(d.len()) + d + len20(i.len()) + i {
                        assert(s@.subrange(1, 21) =~= len20(d.len()));
                    }
                }
            }
            return None;
        },
    };
    if n < 41 || dlen > n - 41 {
        proof {
            assert forall|d: Seq<char>, i: Seq<char>|
                d.len() <= usize::MAX && i.len() <= usize::MAX implies tail != len20(d.len()) + d
                + len20(i.len()) + i by {
                lemma_len20_shape(d.len());
                lemma_len20_shape(i.len());
                if tail == len20(d.len()) + d + len20(i.len()) + i {
                    assert(s@.subrange(1, 21) =~= len20(d.len()));
                    lemma_len20_injective(d.len(), dlen as nat);
                    assert(tail.len() == 40 + d.len() + i.len());
                }
            }
        }
        return None;
    }
    let ilen_opt = parse_len20(s, 21 + dlen);
    let ilen = match ilen_opt {
        Some(v) => v,
        None => {
            proof {
                assert forall|d: Seq<char>, i: Seq<char>|
                    d.len() <= usize::MAX && i.len() <= usize::MAX implies tail != len20(d.len())
                    + d + len20(i.len()) + i by {
                    lemma_len20_shape(d.len());
                    lemma_len20_shape(i.len());
                    if tail == len20(d.len()) + d + len20(i.len()) + i {
                        assert(s@.subrange(1, 21) =~= len20(d.len()));
                        lemma_len20_injective(d.len(), dlen as nat);
                        assert forall|j: int| 0 <= j < 20 implies s@.subrange(
                            21 + dlen as int,
                            41 + dlen as int,
                        )[j] == len20(i.len())[j] by {
                            assert(tail[20 + dlen + j] == len20(i.len())[j]);
                            assert(s@.subrange(21 + dlen as int, 41 + dlen as int)[j] == s@[21
                                + dlen + j]);
                            assert(tail[20 + dlen + j] == s@[21 + dlen + j]);
                        }
                        assert(s@.subrange(21 + dlen as int, 41 + dlen as int) =~= len20(i.len()));
                    }
                }
            }
            return None;
        },
    };
    if n - 41 - dlen != ilen {
        proof {
            assert forall|d: Seq<char>, i: Seq<char>|
                d.len() <= usize::MAX && i.len() <= usize::MAX implies tail != len20(d.len()) + d
                + len20(i.len()) + i by {
                lemma_len20_shape(d.len());
                lemma_len20_shape(i.len());
                if tail == len20(d.len()) + d + len20(i.len()) + i {
                    assert(s@.subrange(1, 21) =~= len20(d.len()));
                    lemma_len20_injective(d.len(), dlen as nat);
                    assert forall|j: int| 0 <= j < 20 implies s@.subrange(
                        21 + dlen as int,
                        41 + dlen as int,
                    )[j] == len20(i.len())[j] by {
                        assert(tail[20 + dlen + j] == len20(i.len())[j]);
                        assert(s@.subrange(21 + dlen as int, 41 + dlen as int)[j] == s@[21 + dlen
                            + j]);
                        assert(tail[20 + dlen + j] == s@[21 + dlen + j]);
                    }
                    assert(s@.subrange(21 + dlen as int, 41 + dlen as int) =~= len20(i.len()));
                    lemma_len20_injective(i.len(), ilen as nat);
                    assert(tail.len() == 40 + d.len() + i.len());
                }
            }
        }
        return None;
    }
    let description = s.substring_char(21, 21 + dlen);
    let input = s.substring_char(41 + dlen, n);
    let d_owned = description.to_owned();
    let i_owned = input.to_owned();
    proof {
        lemma_len20_shape(dlen as nat);
        lemma_len20_shape(ilen as nat);
        assert(tail =~= len20(d_owned@.len()) + d_owned@ + len20(i_owned@.len()) + i_owned@);
    }
    Some((d_owned, i_owned))
}

/// Decodes a canonical text blob back into a task kind: succeeds exactly on
/// the encodings of payloads the library can hold, and returns the payload
/// that encodes to the input.
pub fn decode_task_kind(s: &str) -> (r: Option<TaskTypeDto>)
    ensures
        match r {
            Some(k) => s@ == kind_encoding(k@) && bounded_kind(k@),
            None => forall|kv: TaskKindView|
                bounded_kind(kv) ==> s@ != #[trigger] kind_encoding(kv),
        },
{
    proof {
        reveal_strlit("S");
        reveal_strlit("1");
        reveal_strlit("2");
        lemma_len20_space();
    }
    let n = s.unicode_len();
    if n < 21 {
        proof {
            assert forall|kv: TaskKindView| bounded_kind(kv) implies s@ != #[trigger] kind_encoding(kv) by {
                lemma_encoding_min_len(kv);
            }
        }
        return None;
    }
    let tag = s.get_char(0);
    if tag == 'S' {
        match parse_len20(s, 1) {
            Some(dlen) => {
                if n - 21 == dlen {
                    let description = s.substring_char(21, n);
                    let k = TaskTypeDto::SimpleTask { description: description.to_owned() };
                    proof {
                        lemma_len20_shape(dlen as nat);
                        assert(s@ =~= kind_encoding(k@));
                    }
                    Some(k)
                } else {
                    proof {
                        assert forall|kv: TaskKindView| bounded_kind(kv) implies s@
                            != #[trigger] kind_encoding(kv) by {
                            if s@ == kind_encoding(kv) {
                                lemma_tag_of_encoding(kv);
                                match kv {
                                    TaskKindView::Simple { description } => {
                                        lemma_len20_shape(description.len());
                                        assert(s@.subrange(1, 21) =~= len20(description.len()));
                                        lemma_len20_injective(description.len(), dlen as nat);
                                        assert(s@.len() == 21 + description.len());
                                    },
                                    TaskKindView::PartOne { .. } => {},
                                    TaskKindView::PartTwo { .. } => {},
                                }
                            }
                        }
                    }
                    None
                }
            },
            None => {
                proof {
                    assert forall|kv: TaskKindView| bounded_kind(kv) implies s@ != #[trigger] kind_encoding(kv) by {
                        if s@ == kind_encoding(kv) {
                            lemma_tag_of_encoding(kv);
                            match kv {
                                TaskKindView::Simple { description } => {
                                    lemma_len20_shape(description.len());
                                    assert(s@.subrange(1, 21) =~= len20(description.len()));
                                },
                                TaskKindView::PartOne { .. } => {},
                                TaskKindView::PartTwo { .. } => {},
                            }
                        }
                    }
                }
                None
            },
        }
    } else if tag == '1' {
        match parse_two_part(s) {
            Some((description, input)) => {
                let k = TaskTypeDto::AdventOfCodePartOne { description, input };
                proof {
                    assert(s@ =~= seq!['1'] + s@.subrange(1, s@.len() as int));
                    assert(s@ =~= kind_encoding(k@));
                }
                Some(k)
            },
            None => {
                proof {
                    assert forall|kv: TaskKindView| bounded_kind(kv) implies s@ != #[trigger] kind_encoding(kv) by {
                        if s@ == kind_encoding(kv) {
                            lemma_tag_of_encoding(kv);
                            match kv {
                                TaskKindView::Simple { .. } => {},
                                TaskKindView::PartOne { description, input } => {
                                    assert(s@.subrange(1, s@.len() as int) =~= len20(
                                        description.len(),
                                    ) + description + len20(input.len()) + input);
                                },
                                TaskKindView::PartTwo { .. } => {},
                            }
                        }
                    }
                }
                None
            },
        }
    } else if tag == '2' {
        match parse_two_part(s) {
            Some((description, input)) => {
                let k = TaskTypeDto::AdventOfCodePartTwo { description, input };
                proof {
                    assert(s@ =~= seq!['2'] + s@.subrange(1, s@.len() as int));
                    assert(s@ =~= kind_encoding(k@));
                }
                Some(k)
            },
            None => {
                proof {
                    assert forall|kv: TaskKindView| bounded_kind(kv) implies s@ != #[trigger] kind_encoding(kv) by {
                        if s@ == kind_encoding(kv) {
                            lemma_tag_of_encoding(kv);
                            match kv {
                                TaskKindView::Simple { .. } => {},
                                TaskKindView::PartOne { .. } => {},
                                TaskKindView::PartTwo { description, input } => {
                                    assert(s@.subrange(1, s@.len() as int) =~= len20(
                                        description.len(),
                                    ) + description + len20(input.len()) + input);
                                },
                            }
                        }
                    }
                }
                None
            },
        }
    } else {
        proof {
            assert forall|kv: TaskKindView| bounded_kind(kv) implies s@ != #[trigger] kind_encoding(kv) by {
                if s@ == kind_encoding(kv) {
                    lemma_tag_of_encoding(kv);
                }
            }
        }
        None
    }
}

/// Every encoding is at least the tag and one length prefix long.
proof fn lemma_encoding_min_len(kv: TaskKindView)
    ensures
        kind_encoding(kv).len() >= 21,
{
    match kv {
        TaskKindView::Simple { description } => {
            lemma_digits_len(description.len(), 20, 10);
        },
        TaskKindView::PartOne { description, input } => {
            lemma_digits_len(description.len(), 20, 10);
            lemma_digits_len(input.len(), 20, 10);
        },
        TaskKindView::PartTwo { description, input } => {
            lemma_digits_len(description.len(), 20, 10);
            lemma_digits_len(input.len(), 20, 10);
        },
    }
}

/// The first character of an encoding is its variant's tag.
proof fn lemma_tag_of_encoding(kv: TaskKindView)
    ensures
        kind_encoding(kv).len() >= 21,
        kind_encoding(kv)[0] == (match kv {
            TaskKindView::Simple { .. } => 'S',
            TaskKindView::PartOne { .. } => '1',
            TaskKindView::PartTwo { .. } => '2',
        }),
{
    lemma_encoding_min_len(kv);
}

impl DtoValidator for TaskCreateDto {
    /// Every bound holds: the name within 64 bytes, the solution within
    /// 32768, the description within 32768, and the input within 65536.
    open spec fn valid(&self) -> bool {
        &&& byte_len(self.name@) <= 64
        &&& byte_len(self.solution@) <= 32768
        &&& match self.taskType@ {
            TaskKindView::Simple { description } => byte_len(description) <= 32768,
            TaskKindView::PartOne { description, input } => byte_len(description) <= 32768
                && byte_len(input) <= 65536,
            TaskKindView::PartTwo { description, input } => byte_len(description) <= 32768
                && byte_len(input) <= 65536,
        }
    }

    /// The reason for the first violated bound, checked in the order the
    /// bounds are listed.
    open spec fn validation_message(&self) -> Seq<char> {
        if byte_len(self.name@) > 64 {
            "name too long (must be <=64)"@
        } else if byte_len(self.solution@) > 32768 {
            "solution too long (must be <=32768)"@
        } else {
            let description_long = match self.taskType@ {
                TaskKindView::Simple { description } => byte_len(description) > 32768,
                TaskKindView::PartOne { description, .. } => byte_len(description) > 32768,
                TaskKindView::PartTwo { description, .. } => byte_len(description) > 32768,
            };
            if description_long {
                "description too long (must be <=32768)"@
            } else {
                "input too long (must be <=65536)"@
            }
        }
    }

    fn validate(&self) -> (r: Result<(), DtoValidationError>) {
        if self.name.as_str().as_bytes().len() > 64 {
            return Err(DtoValidationError(String::from_str("name too long (must be <=64)")));
        }
        if self.solution.as_str().as_bytes().len() > 32768 {
            return Err(
                DtoValidationError(String::from_str("solution too long (must be <=32768)")),
            );
        }
        match &self.taskType {
            TaskTypeDto::SimpleTask { description } => {
                if description.as_str().as_bytes().len() > 32768 {
                    return Err(
                        DtoValidationError(
                            String::from_str("description too long (must be <=32768)"),
                        ),
                    );
                }
            },
            TaskTypeDto::AdventOfCodePartOne { description, input } => {
                if description.as_str().as_bytes().len() > 32768 {
                    return Err(
                        DtoValidationError(
                            String::from_str("description too long (must be <=32768)"),
                        ),
                    );
                }
                if input.as_str().as_bytes().len() > 65536 {
                    return Err(
                        DtoValidationError(String::from_str("input too long (must be <=65536)")),
                    );
                }
            },
            TaskTypeDto::AdventOfCodePartTwo { description, input } => {
                if description.as_str().as_bytes().len() > 32768 {
                    return Err(
                        DtoValidationError(
                            String::from_str("description too long (must be <=32768)"),
                        ),
                    );
                }
                if input.as_str().as_bytes().len() > 65536 {
                    return Err(
                        DtoValidationError(String::from_str("input too long (must be <=65536)")),
                    );
                }
            },
        }
        Ok(())
    }
}

impl TaskInDb {
    /// A fresh task record under a newly minted identifier.
    pub fn new(gen: &mut IdGen, name: String, task_json: String, solution: String) -> (r: TaskInDb)
        ensures
            r == (TaskInDb { id: r.id, name, task_json, solution }),
            r.id.value == final(gen).last(),
            r.id.value >= old(gen).last(),
            old(gen).last() < u128::MAX ==> r.id.value > old(gen).last(),
    {
        let id = gen.next_id();
        TaskInDb { id, name, task_json, solution }
    }
}


/// The completion time recorded for a (task, agent) pair: present exactly
/// when the pair's completion exists and has been completed.
pub open spec fn completed_time(
    m: Map<u128, CompletionInDb>,
    task_id: Identifier,
    agent_id: Identifier,
) -> Option<i64> {
    match pair_key(m, task_id, agent_id) {
        Some(k) => m[k].completion_time,
        None => None,
    }
}

/// A stored completion time, in milliseconds, reported in whole unix
/// seconds, as the listing returns it.
pub open spec fn in_unix_seconds(t: Option<i64>) -> Option<i64> {
    match t {
        Some(ms) => Some((ms / 1000) as i64),
        None => None,
    }
}

/// Creates a task from a validated request: the variant payload is encoded
/// into the opaque blob the record stores.  Succeeds on every valid request
/// until the identifier space is spent; rejects exactly the requests that
/// violate a length bound.
pub fn create_task(db: &mut Db, dto: TaskCreateDto) -> (r: Result<Identifier, AppError>)
    requires
        old(db).wf(),
    ensures
        final(db).wf(),
        final(db).agents == old(db).agents,
        final(db).completions == old(db).completions,
        final(db).clock == old(db).clock,
        final(db).gen.last() >= old(db).gen.last(),
        match r {
            Ok(id) => dto.valid() && !old(db).tasks.as_map().contains_key(id.value) && final(db).tasks.as_map().contains_key(id.value) && final(db).tasks.as_map().remove(id.value)
                == old(db).tasks.as_map() && (final(db).tasks.as_map()[id.value].id == id && final(db).tasks.as_map()[id.value].name == dto.name && final(db).tasks.as_map()[id.value].solution == dto.solution && final(db).tasks.as_map()[id.value].task_json@ == kind_encoding(dto.taskType@)),
            Err(e) => final(db).tasks == old(db).tasks && (match e {
                AppError::ValidationError(v) => (!dto.valid() && v.0@ == dto.validation_message()
                    && *final(db) == *old(db)) || (dto.valid() && v.0@ == "duplicate id"@ && old(db).gen.last() == u128::MAX),
                _ => false,
            }),
        },
        dto.valid() && old(db).gen.last() < u128::MAX ==> r is Ok,
{
    match dto.validate() {
        Err(v) => {
            return Err(AppError::ValidationError(v));
        },
        Ok(()) => {},
    }
    let task_json = encode_task_kind(&dto.taskType);
    let model = TaskInDb::new(&mut db.gen, dto.name, task_json, dto.solution);
    let id = model.id;
    match db.tasks.insert_new(id, model) {
        Ok(()) => {
            proof {
                assert(final(db).tasks.as_map().remove(id.value) =~= old(db).tasks.as_map());
            }
            Ok(id)
        },
        Err(e) => {
            proof {
                if old(db).gen.last() < u128::MAX {
                    assert(id.value > old(db).gen.last());
                    assert(false);
                }
            }
            Err(AppError::from_store(e))
        },
    }
}

/// Hands a task to an agent and (re)starts its timer.
///
/// The presented token must match the agent's stored token.  The response
/// carries the task's name and decoded payload — never the solution — and the
/// pair's completion is opened at the current clock reading: restarted in
/// place where one exists, freshly created where none does.
pub fn read_task(db: &mut Db, agent_id: Identifier, task_id: Identifier, token: AgentToken) -> (r:
    Result<TaskDto, AppError>)
    requires
        old(db).wf(),
    ensures
        final(db).wf(),
        final(db).agents == old(db).agents,
        final(db).tasks == old(db).tasks,
        final(db).gen.last() >= old(db).gen.last(),
        match r {
            Ok(dto) => old(db).agents.as_map().contains_key(agent_id.value) && old(db).agents.as_map()[agent_id.value].token.value == token.token.value && old(db).tasks.as_map().contains_key(task_id.value) && dto.name == old(db).tasks.as_map()[task_id.value].name && old(db).tasks.as_map()[task_id.value].task_json@ == kind_encoding(dto.taskType@) && (exists|
                now: i64,
            |
                now >= old(db).clock.last_ms() && now == final(db).clock.last_ms() && open_effect(
                    old(db).completions.as_map(),
                    final(db).completions.as_map(),
                    task_id,
                    agent_id,
                    now,
                )),
            Err(e) => (
            if !old(db).agents.as_map().contains_key(agent_id.value) {
                (e matches AppError::ValidationError(v) && v.0@ == "unknown id"@) && *final(db)
                    == *old(db)
            } else if old(db).agents.as_map()[agent_id.value].token.value != token.token.value {
                e is Unauthorized && *final(db) == *old(db)
            } else if !old(db).tasks.as_map().contains_key(task_id.value) {
                (e matches AppError::ValidationError(v) && v.0@ == "unknown id"@) && *final(db)
                    == *old(db)
            } else {
                (e matches AppError::ValidationError(v) && v.0@ == "duplicate id"@) && old(
                    db,
                ).gen.last() == u128::MAX && pair_key(
                    old(db).completions.as_map(),
                    task_id,
                    agent_id,
                ) is None && final(db).completions == old(db).completions
            }),
        },
        (old(db).agents.as_map().contains_key(agent_id.value) && old(
            db,
        ).agents.as_map()[agent_id.value].token.value == token.token.value && old(
            db,
        ).tasks.as_map().contains_key(task_id.value) && (old(db).gen.last() < u128::MAX
            || pair_key(old(db).completions.as_map(), task_id, agent_id) is Some)) ==> r is Ok,
{
    let agent_token = match db.agents.read(agent_id) {
        Ok(agent) => agent.token,
        Err(e) => {
            return Err(AppError::from_store(e));
        },
    };
    if agent_token.value != token.token.value {
        return Err(AppError::Unauthorized);
    }
    let (name, task_json) = match db.tasks.read(task_id) {
        Ok(task) => (task.name.clone(), task.task_json.clone()),
        Err(e) => {
            return Err(AppError::from_store(e));
        },
    };
    let task_type = match decode_task_kind(task_json.as_str()) {
        Some(k) => k,
        None => {
            proof {
                assert(false);
            }
            return Err(AppError::InternalServerError(StoreError::Serialization));
        },
    };
    let now = db.clock.now_ms();
    proof {
        assert(db.completions == old(db).completions);
        assert(db.gen == old(db).gen);
    }
    match crate::completion::open(db, task_id, agent_id, now) {
        Ok(_cid) => Ok(TaskDto { name, taskType: task_type }),
        Err(e) => {
            proof {
                assert(pair_key(old(db).completions.as_map(), task_id, agent_id) is None);
            }
            Err(e)
        },
    }
}

/// The "tasks with completion status" rows: every stored task, joined with
/// the agent's completed completion where one exists.
pub fn read_all_with_completion(
    tasks: &Store<TaskInDb>,
    completions: &Store<CompletionInDb>,
    agent_id: Identifier,
) -> (r: Vec<TaskWithCompletionInDb>)
    requires
        tasks.wf(),
        completions.wf(),
        crate::completion::pair_unique(completions.as_map()),
    ensures
        r@.len() == tasks.seq_view().len(),
        forall|i: int|
            0 <= i < r@.len() ==> {
                let task = tasks.seq_view()[i].1;
                let row = #[trigger] r@[i];
                row.id == task.id && row.name == task.name && row.task_json == task.task_json
                    && row.solution == task.solution && (match row.completion_id {
                    Some(cid) => completions.as_map().contains_key(cid.value) && is_pair(
                        completions.as_map()[cid.value],
                        task.id,
                        agent_id,
                    ) && completions.as_map()[cid.value].completion_time is Some,
                    None => completed_time(completions.as_map(), task.id, agent_id) is None,
                })
            },
{
    let models = tasks.read_all();
    let mut rows: Vec<TaskWithCompletionInDb> = Vec::new();
    let mut i: usize = 0;
    while i < models.len()
        invariant
            tasks.wf(),
            completions.wf(),
            crate::completion::pair_unique(completions.as_map()),
            models@ == tasks.seq_view(),
            i <= models@.len(),
            rows@.len() == i,
            forall|j: int|
                0 <= j < i ==> {
                    let task = tasks.seq_view()[j].1;
                    let row = #[trigger] rows@[j];
                    row.id == task.id && row.name == task.name && row.task_json == task.task_json
                        && row.solution == task.solution && (match row.completion_id {
                        Some(cid) => completions.as_map().contains_key(cid.value) && is_pair(
                            completions.as_map()[cid.value],
                            task.id,
                            agent_id,
                        ) && completions.as_map()[cid.value].completion_time is Some,
                        None => completed_time(completions.as_map(), task.id, agent_id) is None,
                    })
                },
        decreases models@.len() - i,
    {
        let task = &models[i].1;
        let completion_id: Option<Identifier> = match read_by(completions, task.id, agent_id) {
            Some((cid, c)) => {
                proof {
                    crate::completion::lemma_pair_key_unique(
                        completions.as_map(),
                        task.id,
                        agent_id,
                        cid.value,
                    );
                }
                match c.completion_time {
                    Some(_) => Some(cid),
                    None => None,
                }
            },
            None => {
                proof {
                    assert(pair_key(completions.as_map(), task.id, agent_id) is None);
                }
                None
            },
        };
        rows.push(
            TaskWithCompletionInDb {
                id: task.id,
                name: task.name.clone(),
                task_json: task.task_json.clone(),
                solution: task.solution.clone(),
                completion_id,
            },
        );
        i = i + 1;
    }
    rows
}

/// Lists every task for an agent with its completion status: whether the
/// agent ever completed it, and the recorded completion time where it did.
/// The presented token must match the agent's stored token.
pub fn read_all_tasks(db: &Db, agent_id: Identifier, token: AgentToken) -> (r: Result<
    Vec<TasksDto>,
    AppError,
>)
    requires
        db.wf(),
    ensures
        match r {
            Ok(v) => db.agents.as_map().contains_key(agent_id.value)
                && db.agents.as_map()[agent_id.value].token.value == token.token.value && v@.len()
                == db.tasks.seq_view().len() && forall|i: int|
                0 <= i < v@.len() ==> {
                    let task = db.tasks.seq_view()[i].1;
                    let line = #[trigger] v@[i];
                    line.id == task.id && line.name == task.name && line.time == in_unix_seconds(
                        completed_time(db.completions.as_map(), task.id, agent_id),
                    ) && line.completed == (completed_time(
                        db.completions.as_map(),
                        task.id,
                        agent_id,
                    ) is Some)
                },
            Err(e) => match e {
                AppError::Unauthorized => db.agents.as_map().contains_key(agent_id.value)
                    && db.agents.as_map()[agent_id.value].token.value != token.token.value,
                AppError::ValidationError(v) => v.0@ == "unknown id"@ && !db.agents.as_map().contains_key(
                    agent_id.value,
                ),
                AppError::InternalServerError(_) => false,
            },
        },
{
    let agent_token = match db.agents.read(agent_id) {
        Ok(agent) => agent.token,
        Err(e) => {
            return Err(AppError::from_store(e));
        },
    };
    if agent_token.value != token.token.value {
        return Err(AppError::Unauthorized);
    }
    let rows = read_all_with_completion(&db.tasks, &db.completions, agent_id);
    let mut lines: Vec<TasksDto> = Vec::new();
    let mut i: usize = 0;
    while i < rows.len()
        invariant
            db.wf(),
            rows@.len() == db.tasks.seq_view().len(),
            forall|j: int|
                0 <= j < rows@.len() ==> {
                    let task = db.tasks.seq_view()[j].1;
                    let row = #[trigger] rows@[j];
                    row.id == task.id && row.name == task.name && (match row.completion_id {
                        Some(cid) => db.completions.as_map().contains_key(cid.value) && is_pair(
                            db.completions.as_map()[cid.value],
                            task.id,
                            agent_id,
                        ) && db.completions.as_map()[cid.value].completion_time is Some,
                        None => completed_time(db.completions.as_map(), task.id, agent_id) is None,
                    })
                },
            i <= rows@.len(),
            lines@.len() == i,
            forall|j: int|
                0 <= j < i ==> {
                    let task = db.tasks.seq_view()[j].1;
                    let line = #[trigger] lines@[j];
                    line.id == task.id && line.name == task.name && line.time == in_unix_seconds(
                        completed_time(db.completions.as_map(), task.id, agent_id),
                    ) && line.completed == (completed_time(
                        db.completions.as_map(),
                        task.id,
                        agent_id,
                    ) is Some)
                },
        decreases rows@.len() - i,
    {
        let row = &rows[i];
        let ghost task = db.tasks.seq_view()[i as int].1;
        let mut line = TasksDto {
            id: row.id,
            name: row.name.clone(),
            completed: false,
            time: None,
        };
        match row.completion_id {
            Some(cid) => {
                proof {
                    crate::completion::lemma_pair_key_unique(
                        db.completions.as_map(),
                        task.id,
                        agent_id,
                        cid.value,
                    );
                }
                match db.completions.read(cid) {
                    Ok(completion) => {
                        line.completed = true;
                        line.time = match completion.completion_time {
                            Some(ms) => Some(((ms as u64) / 1000) as i64),
                            None => None,
                        };
                    },
                    Err(_) => {
                        proof {
                            assert(false);
                        }
                    },
                }
            },
            None => {},
        }
        lines.push(line);
        i = i + 1;
    }
    Ok(lines)
}

/// Deletes a task by identifier; completions referring to it are left in
/// place (the engine enforces no referential integrity).  Fails exactly when
/// no task is stored under the identifier.
pub fn delete_task(db: &mut Db, task_id: Identifier) -> (r: Result<Identifier, AppError>)
    requires
        old(db).wf(),
    ensures
        final(db).wf(),
        final(db).agents == old(db).agents,
        final(db).completions == old(db).completions,
        final(db).clock == old(db).clock,
        final(db).gen == old(db).gen,
        match r {
            Ok(id) => id.value == task_id.value && old(db).tasks.as_map().contains_key(
                task_id.value,
            ) && final(db).tasks.as_map() == old(db).tasks.as_map().remove(task_id.value),
            Err(e) => *final(db) == *old(db) && !old(db).tasks.as_map().contains_key(task_id.value)
                && (e matches AppError::ValidationError(v) && v.0@ == "unknown id"@),
        },
{
    let id = match db.tasks.read(task_id) {
        Ok(task) => task.id,
        Err(e) => {
            return Err(AppError::from_store(e));
        },
    };
    match db.tasks.delete(task_id) {
        Ok(()) => Ok(id),
        Err(e) => {
            proof {
                assert(false);
            }
            Err(AppError::from_store(e))
        },
    }
}

} // verus!
