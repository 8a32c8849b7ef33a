//! Task identifiers: every task the service creates is named `task-<n>`,
//! where `<n>` is the decimal form of a counter value.
use vstd::prelude::*;
use vstd::string::StrSliceExecFns;
use vstd::string::StringExecFns;

verus! {

/// The character of a decimal digit `d < 10`.
pub open spec fn digit_char(d: nat) -> char {
    (d + 48) as char
}

/// Whether `c` is one of `'0'..='9'`.
pub open spec fn is_digit(c: char) -> bool {
    48 <= (c as int) <= 57
}

/// The value of a digit character.
pub open spec fn digit_value(c: char) -> nat {
    ((c as int) - 48) as nat
}

/// The canonical decimal form of `n`: no sign, no leading zero.
pub open spec fn decimal(n: nat) -> Seq<char>
    decreases n,
{
    if n < 10 {
        seq![digit_char(n)]
    } else {
        decimal(n / 10).push(digit_char(n % 10))
    }
}

/// The fixed part in front of every task id.
pub open spec fn id_prefix() -> Seq<char> {
    seq!['t', 'a', 's', 'k', '-']
}

/// The id of the task made from counter value `n`.
pub open spec fn task_id(n: nat) -> Seq<char> {
    id_prefix() + decimal(n)
}

/// The counter value that `id` names, where `id` is the id of a `u64` counter value.
pub open spec fn parsed_id(id: Seq<char>) -> Option<u64> {
    if exists|n: u64| id == #[trigger] task_id(n as nat) {
        Some(choose|n: u64| id == #[trigger] task_id(n as nat))
    } else {
        None
    }
}

/// Every character of `s` is a decimal digit.
pub open spec fn all_digits(s: Seq<char>) -> bool {
    forall|i: int| 0 <= i < s.len() ==> is_digit(#[trigger] s[i])
}

/// `s` is a decimal numeral as `decimal` writes them.
pub open spec fn canonical_digits(s: Seq<char>) -> bool {
    &&& s.len() > 0
    &&& all_digits(s)
    &&& (s.len() == 1 || s[0] != '0')
}

/// The number that the digit string `s` denotes.
pub open spec fn digits_value(s: Seq<char>) -> nat
    decreases s.len(),
{
    if s.len() == 0 {
        0
    } else {
        digits_value(s.drop_last()) * 10 + digit_value(s.last())
    }
}

/// `decimal(n)` is a canonical numeral whose value is `n`.
pub proof fn lemma_decimal(n: nat)
    ensures
        canonical_digits(decimal(n)),
        digits_value(decimal(n)) == n,
    decreases n,
{
    if n < 10 {
        let s = decimal(n);
        assert(s.drop_last() =~= Seq::<char>::empty());
        assert(digit_char(n) as int == n + 48);
        assert(is_digit(s[0]));
        assert(digit_value(s.last()) == n);
        assert(digits_value(s.drop_last()) == 0);
    } else {
        lemma_decimal(n / 10);
        let s = decimal(n);
        let t = decimal(n / 10);
        assert(s.drop_last() =~= t);
        assert(s[0] == t[0]);
        if t.len() == 1 {
            assert(t.drop_last() =~= Seq::<char>::empty());
            assert(t.last() == t[0]);
            assert(digits_value(t) == digits_value(t.drop_last()) * 10 + digit_value(t.last()));
            assert(digit_value(t[0]) == n / 10);
        }
        assert(t[0] != '0');
        assert(is_digit(s.last()));
        assert forall|i: int| 0 <= i < s.len() implies is_digit(#[trigger] s[i]) by {
            if i < t.len() {
                assert(s[i] == t[i]);
            }
        }
        assert((n / 10) * 10 + n % 10 == n);
    }
}

/// The value of a numeral that starts with a nonzero digit is positive.
proof fn lemma_value_positive(s: Seq<char>)
    requires
        s.len() > 0,
        all_digits(s),
        s[0] != '0',
    ensures
        digits_value(s) > 0,
    decreases s.len(),
{
    if s.len() > 1 {
        let t = s.drop_last();
        assert(all_digits(t)) by {
            assert forall|i: int| 0 <= i < t.len() implies is_digit(#[trigger] t[i]) by {
                assert(t[i] == s[i]);
            }
        }
        lemma_value_positive(t);
    }
}

/// A canonical numeral is the decimal form of its value.
pub proof fn lemma_canonical_is_decimal(s: Seq<char>)
    requires
        canonical_digits(s),
    ensures
        decimal(digits_value(s)) == s,
    decreases s.len(),
{
    let v = digits_value(s);
    if s.len() == 1 {
        assert(s.drop_last() =~= Seq::<char>::empty());
        assert(is_digit(s[0]));
        assert(decimal(v) =~= s);
    } else {
        let t = s.drop_last();
        assert(t[0] == s[0]);
        assert(all_digits(t)) by {
            assert forall|i: int| 0 <= i < t.len() implies is_digit(#[trigger] t[i]) by {
                assert(t[i] == s[i]);
            }
        }
        assert(is_digit(s[0]));
        lemma_value_positive(t);
        lemma_canonical_is_decimal(t);
        assert(is_digit(s[s.len() - 1]));
        let d = digit_value(s.last());
        assert(d < 10);
        assert(v == digits_value(t) * 10 + d);
        assert(v / 10 == digits_value(t) && v % 10 == d) by (nonlinear_arith)
            requires
                v == digits_value(t) * 10 + d,
                d < 10,
        ;
        assert(v >= 10);
        assert(decimal(v) =~= s);
    }
}

/// The value of a prefix of a digit string is at most the value of the string.
proof fn lemma_prefix_value(s: Seq<char>, i: int)
    requires
        0 <= i <= s.len(),
    ensures
        digits_value(s.subrange(0, i)) <= digits_value(s),
    decreases s.len(),
{
    if i < s.len() {
        let t = s.drop_last();
        assert(t.subrange(0, i) =~= s.subrange(0, i));
        lemma_prefix_value(t, i);
    } else {
        assert(s.subrange(0, i) =~= s);
    }
}

/// The shape of a task id: the prefix, then the decimal form of its number.
pub proof fn lemma_task_id_shape(n: nat)
    ensures
        task_id(n).len() >= 6,
        task_id(n).subrange(0, 5) == id_prefix(),
        task_id(n).subrange(5, task_id(n).len() as int) == decimal(n),
        canonical_digits(decimal(n)),
        digits_value(decimal(n)) == n,
{
    lemma_decimal(n);
    let s = task_id(n);
    assert(s.subrange(0, 5) =~= id_prefix());
    assert(s.subrange(5, s.len() as int) =~= decimal(n));
}

/// Distinct numbers give distinct task ids.
pub proof fn lemma_task_id_injective(a: nat, b: nat)
    ensures
        task_id(a) == task_id(b) <==> a == b,
{
    if task_id(a) == task_id(b) {
        lemma_task_id_shape(a);
        lemma_task_id_shape(b);
    }
}

/// Reading an id back gives the counter value it was made from.
pub proof fn lemma_parsed_id_of_task_id(n: u64)
    ensures
        parsed_id(task_id(n as nat)) == Some(n),
{
    let id = task_id(n as nat);
    assert(id == task_id(n as nat));
    let k = choose|k: u64| id == #[trigger] task_id(k as nat);
    lemma_task_id_injective(k as nat, n as nat);
}

/// The string of one decimal digit.
fn digit_str(d: u64) -> (s: &'static str)
    requires
        d < 10,
    ensures
        s@ == seq![digit_char(d as nat)],
{
    match d {
        0 => {
            proof {
                reveal_strlit("0");
            }
            "0"
        },
        1 => {
            proof {
                reveal_strlit("1");
            }
            "1"
        },
        2 => {
            proof {
                reveal_strlit("2");
            }
            "2"
        },
        3 => {
            proof {
                reveal_strlit("3");
            }
            "3"
        },
        4 => {
            proof {
                reveal_strlit("4");
            }
            "4"
        },
        5 => {
            proof {
                reveal_strlit("5");
            }
            "5"
        },
        6 => {
            proof {
                reveal_strlit("6");
            }
            "6"
        },
        7 => {
            proof {
                reveal_strlit("7");
            }
            "7"
        },
        8 => {
            proof {
                reveal_strlit("8");
            }
            "8"
        },
        _ => {
            proof {
                reveal_strlit("9");
            }
            "9"
        },
    }
}

/// Appends the decimal form of `n` to `s`.
fn push_decimal(s: &mut String, n: u64)
    ensures
        final(s)@ == old(s)@ + decimal(n as nat),
    decreases n,
{
    if n >= 10 {
        push_decimal(s, n / 10);
    }
    s.append(digit_str(n % 10));
    assert(final(s)@ =~= old(s)@ + decimal(n as nat));
}

/// The id of the task made from counter value `n`: `task-` followed by `n` in decimal.
pub fn format_task_id(n: u64) -> (id: String)
    ensures
        id@ == task_id(n as nat),
{
    let mut id = String::from_str("task-");
    proof {
        reveal_strlit("task-");
    }
    push_decimal(&mut id, n);
    id
}

/// The counter value that `id` names, if `id` is the id of some counter value
/// that fits in a `u64`.
pub fn parse_task_id(id: &str) -> (r: Option<u64>)
    ensures
        r == parsed_id(id@),
        match r {
            Some(n) => id@ == task_id(n as nat),
            None => forall|n: u64| id@ != #[trigger] task_id(n as nat),
        },
{
    let len = id.unicode_len();
    proof {
        assert forall|n: u64| id@ == #[trigger] task_id(n as nat) implies len >= 6 by {
            lemma_task_id_shape(n as nat);
        }
    }
    if len < 6 {
        return None;
    }
    let c0 = id.get_char(0);
    let c1 = id.get_char(1);
    let c2 = id.get_char(2);
    let c3 = id.get_char(3);
    let c4 = id.get_char(4);
    if !(c0 == 't' && c1 == 'a' && c2 == 's' && c3 == 'k' && c4 == '-') {
        proof {
            assert forall|n: u64| id@ != #[trigger] task_id(n as nat) by {
                lemma_task_id_shape(n as nat);
                if id@ == task_id(n as nat) {
                    assert(id@.subrange(0, 5)[0] == id_prefix()[0]);
                    assert(id@.subrange(0, 5)[1] == id_prefix()[1]);
                    assert(id@.subrange(0, 5)[2] == id_prefix()[2]);
                    assert(id@.subrange(0, 5)[3] == id_prefix()[3]);
                    assert(id@.subrange(0, 5)[4] == id_prefix()[4]);
                }
            }
        }
        return None;
    }
    assert(id@.subrange(0, 5) =~= id_prefix());
    let ghost digits = id@.subrange(5, len as int);
    let first = id.get_char(5);
    assert(digits[0] == first);
    if first == '0' && len > 6 {
        proof {
            assert forall|n: u64| id@ != #[trigger] task_id(n as nat) by {
                lemma_task_id_shape(n as nat);
            }
        }
        return None;
    }
    let mut value: u64 = 0;
    let mut i: usize = 5;
    while i < len
        invariant
            5 <= i <= len,
            len == id@.len(),
            digits == id@.subrange(5, len as int),
            all_digits(id@.subrange(5, i as int)),
            value == digits_value(id@.subrange(5, i as int)),
        decreases len - i,
    {
        let c = id.get_char(i);
        let ghost before = id@.subrange(5, i as int);
        let ghost after = id@.subrange(5, i + 1);
        assert(after.drop_last() =~= before);
        assert(after.last() == c);
        if !(c >= '0' && c <= '9') {
            proof {
                assert forall|n: u64| id@ != #[trigger] task_id(n as nat) by {
                    lemma_task_id_shape(n as nat);
                    if id@ == task_id(n as nat) {
                        assert(digits[i - 5] == c);
                        assert(is_digit(decimal(n as nat)[i - 5]));
                    }
                }
            }
            return None;
        }
        let d: u64 = (c as u32 - 48) as u64;
        assert(d == digit_value(c));
        if value > (u64::MAX - d) / 10 {
            proof {
                assert(value * 10 + d > u64::MAX) by (nonlinear_arith)
                    requires
                        value > (u64::MAX - d) / 10,
                        d < 10,
                ;
                assert(digits_value(after) > u64::MAX);
                assert forall|n: u64| id@ != #[trigger] task_id(n as nat) by {
                    lemma_task_id_shape(n as nat);
                    if id@ == task_id(n as nat) {
                        assert(digits.subrange(0, i + 1 - 5) =~= after);
                        lemma_prefix_value(digits, i + 1 - 5);
                    }
                }
            }
            return None;
        }
        assert(value * 10 + d <= u64::MAX) by (nonlinear_arith)
            requires
                value <= (u64::MAX - d) / 10,
                d < 10,
        ;
        value = value * 10 + d;
        i = i + 1;
        assert(all_digits(after)) by {
            assert forall|j: int| 0 <= j < after.len() implies is_digit(#[trigger] after[j]) by {
                if j < before.len() {
                    assert(after[j] == before[j]);
                }
            }
        }
    }
    proof {
        assert(id@.subrange(5, i as int) =~= digits);
        assert(canonical_digits(digits));
        lemma_canonical_is_decimal(digits);
        assert(id@ =~= id_prefix() + digits);
        let k = choose|k: u64| id@ == #[trigger] task_id(k as nat);
        lemma_task_id_injective(k as nat, value as nat);
    }
    Some(value)
}

} // verus!
