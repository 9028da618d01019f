//! Time-ordered unique identifiers and their generator.
//!
//! Every stored record is keyed by a 128-bit identifier whose canonical
//! 16-byte encoding sorts byte-lexicographically in the identifier's numeric
//! order, so listing records by identifier approximates creation order.
//! Fresh identifiers come from the system UUID source, forced monotone by the
//! generator: each minted identifier compares at least as large as any minted
//! before it in the same process.

use crate::digits::digits_be;
use crate::digits::digits_of;
use crate::digits::lemma_digits_bounds;
use crate::digits::lemma_digits_len;
use crate::digits::lemma_digits_val;
use crate::digits::lemma_val_digits;
use crate::digits::lex_le;
use crate::digits::lemma_digits_order;
use crate::digits::pow_n;
use crate::digits::val_of;
use vstd::prelude::*;

verus! {

/// A 128-bit identifier used as the primary key of every stored record.
#[derive(Clone, Copy, Debug, PartialEq, Eq, Structural)]
pub struct Identifier {
    pub value: u128,
}

/// The canonical 16-byte big-endian encoding of an identifier value.
pub open spec fn id_bytes(v: u128) -> Seq<nat> {
    digits_be(v as nat, 16, 256)
}

/// `256^16`, the number of distinct identifier values.
proof fn lemma_id_space()
    ensures
        pow_n(256, 16) == u128::MAX as nat + 1,
        pow_n(256, 15) <= u128::MAX as nat,
{
    reveal_with_fuel(pow_n, 17);
}

impl Identifier {
    pub fn from_value(value: u128) -> (r: Identifier)
        ensures
            r.value == value,
    {
        Identifier { value }
    }

    /// The canonical 16-byte big-endian form, the key under which a record
    /// is stored.
    pub fn to_bytes(&self) -> (out: Vec<u8>)
        ensures
            out@.len() == 16,
            out@.map_values(|b: u8| b as nat) == id_bytes(self.value),
    {
        proof {
            lemma_id_space();
        }
        digits_of(self.value, 16, 256)
    }
}

/// Identifier order agrees with byte-lexicographic order of the canonical
/// 16-byte encoding.  Together with `IdGen::next_id`, whose result never
/// compares below an earlier one, this says that of two records created in
/// sequence in one process, the later one's identifier sorts at least as
/// high as the earlier one's under canonical byte order.
pub proof fn lemma_id_order_matches_byte_order(a: u128, b: u128)
    ensures
        a <= b <==> lex_le(id_bytes(a), id_bytes(b)),
{
    lemma_id_space();
    lemma_digits_order(a as nat, b as nat, 16, 256);
}

/// Relies on `std::time::SystemTime::now` for the raw clock reading (taken
/// as 0 on a pre-epoch clock) and on `uuid::Timestamp::from_unix` and
/// `uuid::Uuid::new_v7` for the fresh time-ordered value, read back as its
/// 16 bytes in big-endian order.  Nothing is assumed of the value.  The one
/// abort left is uuid's: it fills the random bits from the operating
/// system's randomness source and gives up if that source fails — an
/// environmental failure no input can reach, of the same class as memory
/// exhaustion.
#[verifier::external_body]
fn fresh_id_value() -> u128 {
    let since_epoch = match std::time::SystemTime::now().duration_since(std::time::UNIX_EPOCH) {
        Ok(d) => d,
        Err(_) => std::time::Duration::ZERO,
    };
    let ts = uuid::Timestamp::from_unix(
        uuid::NoContext,
        since_epoch.as_secs(),
        since_epoch.subsec_nanos(),
    );
    uuid::Uuid::new_v7(ts).as_u128()
}

/// Mints identifiers that never decrease within one process.
///
/// Fresh values come from the time-ordered system UUID source; where the
/// source ever hands back a value at or below the last minted one, the
/// generator steps past the last one instead, so mint order and identifier
/// order agree without trusting the source for it.
pub struct IdGen {
    last: u128,
}

impl IdGen {
    /// The largest identifier value minted so far (zero initially).
    pub closed spec fn last(&self) -> u128 {
        self.last
    }

    pub fn new() -> (r: IdGen)
        ensures
            r.last() == 0,
    {
        IdGen { last: 0 }
    }

    /// Takes a restored identifier value into account, so freshly minted
    /// identifiers never collide with it; a value already passed changes
    /// nothing.
    pub fn observe(&mut self, value: u128)
        ensures
            final(self).last() == (if value > old(self).last() {
                value
            } else {
                old(self).last()
            }),
    {
        if value > self.last {
            self.last = value;
        }
    }

    /// Mints the next identifier: never below any identifier minted before,
    /// and strictly above the previous one until the value space is spent.
    pub fn next_id(&mut self) -> (r: Identifier)
        ensures
            r.value == final(self).last(),
            r.value >= old(self).last(),
            old(self).last() < u128::MAX ==> r.value > old(self).last(),
    {
        let fresh = fresh_id_value();
        let next: u128 = if fresh > self.last {
            fresh
        } else if self.last < u128::MAX {
            self.last + 1
        } else {
            self.last
        };
        self.last = next;
        Identifier { value: next }
    }
}


/// The hexadecimal digit characters.
pub open spec fn hex_char(d: nat) -> char {
    if d == 0 {
        '0'
    } else if d == 1 {
        '1'
    } else if d == 2 {
        '2'
    } else if d == 3 {
        '3'
    } else if d == 4 {
        '4'
    } else if d == 5 {
        '5'
    } else if d == 6 {
        '6'
    } else if d == 7 {
        '7'
    } else if d == 8 {
        '8'
    } else if d == 9 {
        '9'
    } else if d == 10 {
        'a'
    } else if d == 11 {
        'b'
    } else if d == 12 {
        'c'
    } else if d == 13 {
        'd'
    } else if d == 14 {
        'e'
    } else {
        'f'
    }
}

pub open spec fn is_hex_digit(c: char) -> bool {
    c == '0' || c == '1' || c == '2' || c == '3' || c == '4' || c == '5' || c == '6' || c == '7'
        || c == '8' || c == '9' || c == 'a' || c == 'b' || c == 'c' || c == 'd' || c == 'e' || c
        == 'f'
}

/// The 32 hexadecimal digits of an identifier value, most significant first.
pub open spec fn id_nibbles(v: u128) -> Seq<nat> {
    digits_be(v as nat, 32, 16)
}

/// The canonical 36-character text form: 32 lowercase hexadecimal digits in
/// five dash-separated groups of 8, 4, 4, 4 and 12.
pub open spec fn id_text(v: u128) -> Seq<char> {
    let h = id_nibbles(v).map_values(|d: nat| hex_char(d));
    h.subrange(0, 8) + seq!['-'] + h.subrange(8, 12) + seq!['-'] + h.subrange(12, 16) + seq!['-']
        + h.subrange(16, 20) + seq!['-'] + h.subrange(20, 32)
}

/// Where the `j`-th hexadecimal digit sits in the canonical text.
pub open spec fn text_pos(j: int) -> int {
    if j < 8 {
        j
    } else if j < 12 {
        j + 1
    } else if j < 16 {
        j + 2
    } else if j < 20 {
        j + 3
    } else {
        j + 4
    }
}

/// `16^32`, the number of identifier values, and the in-range powers.
proof fn lemma_hex_space()
    ensures
        pow_n(16, 32) == u128::MAX as nat + 1,
        pow_n(16, 31) <= u128::MAX,
{
    reveal_with_fuel(pow_n, 33);
}

/// The shape of the canonical text: its length, its dashes, and the digit
/// character at each digit position.
proof fn lemma_id_text_index(v: u128)
    ensures
        id_text(v).len() == 36,
        id_text(v)[8] == '-' && id_text(v)[13] == '-' && id_text(v)[18] == '-' && id_text(v)[23]
            == '-',
        forall|j: int| 0 <= j < 32 ==> #[trigger] id_text(v)[text_pos(j)] == hex_char(
            id_nibbles(v)[j],
        ),
{
    lemma_digits_len(v as nat, 32, 16);
    let h = id_nibbles(v).map_values(|d: nat| hex_char(d));
    assert(h.len() == 32);
    assert forall|j: int| 0 <= j < 32 implies #[trigger] id_text(v)[text_pos(j)] == hex_char(
        id_nibbles(v)[j],
    ) by {
        if j < 8 {
            assert(id_text(v)[text_pos(j)] == h.subrange(0, 8)[j]);
        } else if j < 12 {
            assert(id_text(v)[text_pos(j)] == h.subrange(8, 12)[j - 8]);
        } else if j < 16 {
            assert(id_text(v)[text_pos(j)] == h.subrange(12, 16)[j - 12]);
        } else if j < 20 {
            assert(id_text(v)[text_pos(j)] == h.subrange(16, 20)[j - 16]);
        } else {
            assert(id_text(v)[text_pos(j)] == h.subrange(20, 32)[j - 20]);
        }
    }
}

/// The hexadecimal digit character for a digit value.
fn hex_str(d: u8) -> (r: &'static str)
    requires
        d < 16,
    ensures
        r@ =~= seq![hex_char(d as nat)],
{
    proof {
        reveal_strlit("0");
        reveal_strlit("1");
        reveal_strlit("2");
        reveal_strlit("3");
        reveal_strlit("4");
        reveal_strlit("5");
        reveal_strlit("6");
        reveal_strlit("7");
        reveal_strlit("8");
        reveal_strlit("9");
        reveal_strlit("a");
        reveal_strlit("b");
        reveal_strlit("c");
        reveal_strlit("d");
        reveal_strlit("e");
        reveal_strlit("f");
    }
    match d {
        0 => "0",
        1 => "1",
        2 => "2",
        3 => "3",
        4 => "4",
        5 => "5",
        6 => "6",
        7 => "7",
        8 => "8",
        9 => "9",
        10 => "a",
        11 => "b",
        12 => "c",
        13 => "d",
        14 => "e",
        _ => "f",
    }
}

/// The digit value of a hexadecimal digit character (lowercase only, as the
/// canonical form is written).
fn hex_val(c: char) -> (r: Option<u8>)
    ensures
        match r {
            Some(d) => d < 16 && c == hex_char(d as nat),
            None => !is_hex_digit(c),
        },
{
    match c {
        '0' => Some(0),
        '1' => Some(1),
        '2' => Some(2),
        '3' => Some(3),
        '4' => Some(4),
        '5' => Some(5),
        '6' => Some(6),
        '7' => Some(7),
        '8' => Some(8),
        '9' => Some(9),
        'a' => Some(10),
        'b' => Some(11),
        'c' => Some(12),
        'd' => Some(13),
        'e' => Some(14),
        'f' => Some(15),
        _ => None,
    }
}

/// Appends the hexadecimal characters of `nibbles[from..to]`.
fn push_hex_range(out: &mut String, nibbles: &Vec<u8>, from: usize, to: usize)
    requires
        from <= to <= nibbles@.len(),
        forall|j: int| 0 <= j < nibbles@.len() ==> (#[trigger] nibbles@[j]) < 16,
    ensures
        final(out)@ == old(out)@ + nibbles@.map_values(|d: u8| hex_char(d as nat)).subrange(
            from as int,
            to as int,
        ),
{
    let ghost h = nibbles@.map_values(|d: u8| hex_char(d as nat));
    let mut j: usize = from;
    proof {
        assert(h.subrange(from as int, from as int) =~= Seq::<char>::empty());
        assert(old(out)@ + h.subrange(from as int, from as int) =~= old(out)@);
    }
    while j < to
        invariant
            from <= j <= to <= nibbles@.len(),
            forall|k: int| 0 <= k < nibbles@.len() ==> (#[trigger] nibbles@[k]) < 16,
            h == nibbles@.map_values(|d: u8| hex_char(d as nat)),
            out@ == old(out)@ + h.subrange(from as int, j as int),
        decreases to - j,
    {
        proof {
            assert(h.subrange(from as int, j as int + 1) =~= h.subrange(
                from as int,
                j as int,
            ).push(h[j as int]));
        }
        out.append(hex_str(nibbles[j]));
        j = j + 1;
    }
}

impl Identifier {
    /// The canonical 36-character text form: five dash-separated groups of
    /// lowercase hexadecimal digits, the name a record's file carries and
    /// the form identifier columns store.
    pub fn to_text(&self) -> (r: String)
        ensures
            r@ == id_text(self.value),
    {
        proof {
            lemma_hex_space();
            lemma_digits_bounds(self.value as nat, 32, 16);
            reveal_strlit("-");
        }
        let nibbles = digits_of(self.value, 32, 16);
        proof {
            assert forall|j: int| 0 <= j < nibbles@.len() implies (#[trigger] nibbles@[j])
                < 16 by {
                assert(nibbles@.map_values(|d: u8| d as nat)[j] == digits_be(
                    self.value as nat,
                    32,
                    16,
                )[j]);
            }
        }
        let mut out = String::new();
        push_hex_range(&mut out, &nibbles, 0, 8);
        out.append("-");
        push_hex_range(&mut out, &nibbles, 8, 12);
        out.append("-");
        push_hex_range(&mut out, &nibbles, 12, 16);
        out.append("-");
        push_hex_range(&mut out, &nibbles, 16, 20);
        out.append("-");
        push_hex_range(&mut out, &nibbles, 20, 32);
        proof {
            assert("-"@ =~= seq!['-']);
            assert(out@ =~= id_text(self.value));
        }
        out
    }

    /// Reads the canonical text form back: succeeds exactly on the canonical
    /// text of some identifier, and returns that identifier.
    pub fn from_text(s: &str) -> (r: Option<Identifier>)
        ensures
            match r {
                Some(id) => s@ == id_text(id.value),
                None => forall|v: u128| s@ != #[trigger] id_text(v),
            },
    {
        proof {
            lemma_hex_space();
            reveal_strlit("-");
        }
        let n = s.unicode_len();
        if n != 36 {
            proof {
                assert forall|v: u128| s@ != #[trigger] id_text(v) by {
                    lemma_id_text_index(v);
                }
            }
            return None;
        }
        let dash_positions: [usize; 4] = [8, 13, 18, 23];
        let mut d: usize = 0;
        while d < 4
            invariant
                s@.len() == 36,
                dash_positions@ =~= seq![8usize, 13usize, 18usize, 23usize],
                d <= 4,
                forall|k: int| 0 <= k < d ==> s@[dash_positions@[k] as int] == '-',
            decreases 4 - d,
        {
            if s.get_char(dash_positions[d]) != '-' {
                proof {
                    assert forall|v: u128| s@ != #[trigger] id_text(v) by {
                        lemma_id_text_index(v);
                    }
                }
                return None;
            }
            d = d + 1;
        }
        let mut digits: Vec<u8> = Vec::new();
        let mut j: usize = 0;
        while j < 32
            invariant
                s@.len() == 36,
                j <= 32,
                digits@.len() == j,
                forall|k: int|
                    0 <= k < j ==> (#[trigger] digits@[k]) < 16 && s@[text_pos(k)] == hex_char(
                        digits@[k] as nat,
                    ),
            decreases 32 - j,
        {
            let pos: usize = if j < 8 {
                j
            } else if j < 12 {
                j + 1
            } else if j < 16 {
                j + 2
            } else if j < 20 {
                j + 3
            } else {
                j + 4
            };
            let c = s.get_char(pos);
            match hex_val(c) {
                Some(digit) => {
                    digits.push(digit);
                },
                None => {
                    proof {
                        assert forall|v: u128| s@ != #[trigger] id_text(v) by {
                            lemma_hex_space();
                            lemma_id_text_index(v);
                            lemma_digits_bounds(v as nat, 32, 16);
                            if s@ == id_text(v) {
                                assert(s@[text_pos(j as int)] == hex_char(id_nibbles(v)[j as int]));
                                assert(id_nibbles(v)[j as int] < 16);
                                assert(is_hex_digit(hex_char(id_nibbles(v)[j as int])));
                            }
                        }
                    }
                    return None;
                },
            }
            j = j + 1;
        }
        let ghost dn = digits@.map_values(|dd: u8| dd as nat);
        proof {
            assert forall|k: int| 0 <= k < dn.len() implies #[trigger] dn[k] < 16 by {
                assert(dn[k] == digits@[k] as nat);
            }
            crate::digits::lemma_val_lt(dn, 16);
            lemma_digits_val(dn, 16);
        }
        let value = val_of(&digits, 16);
        let id = Identifier { value };
        proof {
            lemma_id_text_index(value);
            assert(id_nibbles(value) == digits@.map_values(|dd: u8| dd as nat));
            assert forall|k: int| 0 <= k < 36 implies s@[k] == id_text(value)[k] by {
                if k == 8 || k == 13 || k == 18 || k == 23 {
                    assert(s@[k] == '-');
                } else {
                    let jj: int = if k < 8 {
                        k
                    } else if k < 13 {
                        k - 1
                    } else if k < 18 {
                        k - 2
                    } else if k < 23 {
                        k - 3
                    } else {
                        k - 4
                    };
                    assert(text_pos(jj) == k);
                    assert(s@[k] == hex_char(digits@[jj] as nat));
                    assert(id_text(value)[text_pos(jj)] == hex_char(id_nibbles(value)[jj]));
                }
            }
            assert(s@ =~= id_text(value));
        }
        Some(id)
    }
}

} // verus!
