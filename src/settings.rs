//! Reading the auto-release grace window from its setting text.

use vstd::prelude::*;
use vstd::utf8::encode_utf8;
use crate::db::Database;

verus! {

/// Settings key of the auto-release grace window, in minutes.
pub const SETTING_AUTO_RELEASE_MINUTES: &'static str = "auto_release_minutes";

/// The value of the decimal digits `b`.
pub open spec fn digits_value(b: Seq<u8>) -> int
    decreases b.len(),
{
    if b.len() == 0 {
        0
    } else {
        digits_value(b.drop_last()) * 10 + (b.last() - 48)
    }
}

/// `b` is a non-empty run of ASCII digits.
pub open spec fn all_digits(b: Seq<u8>) -> bool {
    b.len() > 0 && forall|i: int| 0 <= i < b.len() ==> 48 <= #[trigger] b[i] <= 57
}

/// The grace minutes that setting text `b` stands for: a decimal integer,
/// with an optional sign, that fits a signed 64-bit integer; a value at or
/// below zero, or any other text, turns auto-release off (0).
pub open spec fn grace_of_text(b: Seq<u8>) -> int {
    if all_digits(b) && digits_value(b) <= i64::MAX {
        digits_value(b)
    } else if b.len() > 1 && b[0] == 43 && all_digits(b.subrange(1, b.len() as int)) && digits_value(
        b.subrange(1, b.len() as int),
    ) <= i64::MAX {
        digits_value(b.subrange(1, b.len() as int))
    } else {
        0
    }
}

/// A run of digits has a value of zero or more.
pub proof fn lemma_value_nonneg(b: Seq<u8>)
    requires
        forall|i: int| 0 <= i < b.len() ==> 48 <= #[trigger] b[i] <= 57,
    ensures
        digits_value(b) >= 0,
    decreases b.len(),
{
    if b.len() > 0 {
        let c = b.drop_last();
        assert forall|i: int| 0 <= i < c.len() implies 48 <= #[trigger] c[i] <= 57 by {
            assert(c[i] == b[i]);
        }
        lemma_value_nonneg(c);
        assert(48 <= b[b.len() - 1]);
    }
}

/// A run of digits is worth at least any of its prefixes.
pub proof fn lemma_prefix_value(b: Seq<u8>, j: int)
    requires
        all_digits(b),
        0 < j <= b.len(),
    ensures
        digits_value(b) >= digits_value(b.subrange(0, j)),
    decreases b.len(),
{
    if j < b.len() {
        let c = b.drop_last();
        assert(c.subrange(0, j) =~= b.subrange(0, j));
        assert(all_digits(c)) by {
            assert forall|i: int| 0 <= i < c.len() implies 48 <= #[trigger] c[i] <= 57 by {
                assert(c[i] == b[i]);
            }
        }
        lemma_prefix_value(c, j);
        lemma_value_nonneg(c);
        assert(48 <= b[b.len() - 1] <= 57);
    } else {
        assert(b.subrange(0, j) =~= b);
    }
}

/// The value of the digits `b[from..]`, or 0 when they are absent, not all
/// digits, or above the signed 64-bit range.
fn digits_from(b: &[u8], from: usize) -> (r: u64)
    requires
        from <= b@.len(),
    ensures
        all_digits(b@.subrange(from as int, b@.len() as int)) && digits_value(b@.subrange(from as int, b@.len() as int)) <= i64::MAX
            ==> r == digits_value(b@.subrange(from as int, b@.len() as int)),
        !(all_digits(b@.subrange(from as int, b@.len() as int)) && digits_value(b@.subrange(from as int, b@.len() as int)) <= i64::MAX)
            ==> r == 0,
{
    let ghost whole = b@.subrange(from as int, b@.len() as int);
    if from == b.len() {
        return 0;
    }
    let max: u64 = 9_223_372_036_854_775_807;
    let mut v: u64 = 0;
    let mut i: usize = from;
    while i < b.len()
        invariant
            from <= i <= b@.len(),
            from < b@.len(),
            whole == b@.subrange(from as int, b@.len() as int),
            max == i64::MAX,
            v as int == digits_value(b@.subrange(from as int, i as int)),
            v <= max,
            forall|k: int| from <= k < i ==> 48 <= #[trigger] b@[k] <= 57,
        decreases b@.len() - i,
    {
        let d = b[i];
        if d < 48 || d > 57 {
            assert(whole[i - from] == d);
            return 0;
        }
        let digit = (d - 48) as u64;
        assert(b@.subrange(from as int, i + 1).drop_last() =~= b@.subrange(from as int, i as int));
        if v > (max - digit) / 10 {
            proof {
                assert(v * 10 + digit > max) by (nonlinear_arith)
                    requires
                        v > (max - digit) / 10,
                        digit <= 9,
                        max == i64::MAX,
                ;
                if all_digits(whole) {
                    lemma_prefix_value(whole, i + 1 - from);
                    assert(whole.subrange(0, i + 1 - from) =~= b@.subrange(from as int, i + 1));
                }
            }
            return 0;
        }
        v = v * 10 + digit;
        i = i + 1;
    }
    assert(b@.subrange(from as int, i as int) =~= whole);
    assert(all_digits(whole)) by {
        assert forall|k: int| 0 <= k < whole.len() implies 48 <= #[trigger] whole[k] <= 57 by {
            assert(whole[k] == b@[from + k]);
        }
    }
    v
}

/// The grace minutes that setting text `text` stands for.
pub fn parse_grace_minutes(text: &str) -> (r: u64)
    ensures
        r == grace_of_text(encode_utf8(text@)),
{
    let b = text.as_bytes();
    let whole = digits_from(b, 0);
    assert(b@.subrange(0, b@.len() as int) =~= b@);
    if b.len() > 1 && b[0] == 43 {
        assert(!all_digits(b@)) by {
            assert(b@[0] == 43);
        }
        digits_from(b, 1)
    } else {
        whole
    }
}

/// The auto-release grace window: the stored setting when there is one,
/// else the `fallback` text (an environment setting, say), else off (0).
pub fn auto_release_minutes(db: &Database, fallback: Option<&str>) -> (r: u64)
    requires
        db.wf(),
    ensures
        db.settings().contains_key(SETTING_AUTO_RELEASE_MINUTES@) ==> r == grace_of_text(
            encode_utf8(db.settings()[SETTING_AUTO_RELEASE_MINUTES@]@),
        ),
        !db.settings().contains_key(SETTING_AUTO_RELEASE_MINUTES@) ==> r == match fallback {
            Some(t) => grace_of_text(encode_utf8(t@)),
            None => 0,
        },
{
    let key = String::from_str(SETTING_AUTO_RELEASE_MINUTES);
    match db.get_setting(&key) {
        Some(v) => parse_grace_minutes(v.as_str()),
        None => match fallback {
            Some(t) => parse_grace_minutes(t),
            None => 0,
        },
    }
}

} // verus!
