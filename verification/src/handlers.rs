//! Handler dispatch: splitting out the `:-` default, case-insensitive prefix
//! matching, the date approximator, and the handler table itself, with the
//! spec functions that state each step exactly.

use vstd::prelude::*;

use crate::findings::Handler;
use crate::text::{b64_decode, base64_decoded, lowercase, lowercased, uppercase, uppercased,
    utf8_decode};
use vstd::string::StrSliceExecFns;
use vstd::utf8::{decode_utf8, encode_utf8, valid_utf8};

verus! {

/// The byte `$`.
pub const DOLLAR: u8 = 36;

/// The byte `{`.
pub const LBRACE: u8 = 123;

/// The byte `}`.
pub const RBRACE: u8 = 125;

/// The byte `:`.
pub const COLON: u8 = 58;

/// The byte `-`.
pub const DASH: u8 = 45;

/// The byte `'`.
pub const QUOTE: u8 = 39;

// ---------------------------------------------------------------------------
// ASCII case folding, for case-insensitive handler prefixes
// ---------------------------------------------------------------------------
/// ASCII-only case fold of one byte: `A`..`Z` map to `a`..`z`, every other
/// byte is left alone.
pub open spec fn fold_byte(b: u8) -> u8 {
    if 65 <= b && b <= 90 {
        (b + 32) as u8
    } else {
        b
    }
}

pub(crate) fn fold_byte_ex(b: u8) -> (r: u8)
    ensures
        r == fold_byte(b),
{
    if 65 <= b && b <= 90 {
        b + 32
    } else {
        b
    }
}

/// `s` begins with `p`, compared byte for byte under the ASCII case fold.
pub open spec fn has_prefix_fold(s: Seq<u8>, p: Seq<u8>) -> bool {
    s.len() >= p.len() && forall|i: int| 0 <= i < p.len() ==> fold_byte(s[i]) == fold_byte(p[i])
}

/// If `input` begins with `prefix` under the ASCII case fold, the bytes after
/// the prefix; otherwise nothing.
pub(crate) fn strip_lower_ascii_prefix(input: &Vec<u8>, prefix: &Vec<u8>) -> (r: Option<Vec<u8>>)
    ensures
        match r {
            Some(rest) => has_prefix_fold(input@, prefix@) && rest@ == input@.skip(
                prefix@.len() as int,
            ),
            None => !has_prefix_fold(input@, prefix@),
        },
{
    if input.len() < prefix.len() {
        return None;
    }
    let mut i: usize = 0;
    while i < prefix.len()
        invariant
            i <= prefix.len() <= input.len(),
            forall|j: int| 0 <= j < i ==> fold_byte(input@[j]) == fold_byte(prefix@[j]),
        decreases prefix.len() - i,
    {
        if fold_byte_ex(input[i]) != fold_byte_ex(prefix[i]) {
            return None;
        }
        i = i + 1;
    }
    let mut rest: Vec<u8> = Vec::new();
    let mut j: usize = prefix.len();
    while j < input.len()
        invariant
            prefix.len() <= j <= input.len(),
            rest@ == input@.subrange(prefix@.len() as int, j as int),
        decreases input.len() - j,
    {
        let b = input[j];
        rest.push(b);
        j = j + 1;
        proof {
            assert(rest@ =~= input@.subrange(prefix@.len() as int, j as int));
        }
    }
    proof {
        assert(rest@ =~= input@.skip(prefix@.len() as int));
    }
    Some(rest)
}

// ---------------------------------------------------------------------------
// Splitting out the `:-` default
// ---------------------------------------------------------------------------
/// Position of the first `:-` at or after `i`, if any.
pub open spec fn delim_from(s: Seq<u8>, i: int) -> Option<int>
    decreases s.len() - i,
{
    if i < 0 || i + 2 > s.len() {
        None
    } else if s[i] == COLON && s[i + 1] == DASH {
        Some(i)
    } else {
        delim_from(s, i + 1)
    }
}

/// The value before the first `:-` (all of `s` if there is none) and the
/// default after it (empty if there is none). Only the first occurrence
/// splits.
pub open spec fn split_at_delim(s: Seq<u8>) -> (Seq<u8>, Seq<u8>) {
    match delim_from(s, 0) {
        Some(i) => (s.take(i), s.skip(i + 2)),
        None => (s, Seq::<u8>::empty()),
    }
}

/// Copy of `v[from..to]`.
pub(crate) fn subvec(v: &Vec<u8>, from: usize, to: usize) -> (r: Vec<u8>)
    requires
        from <= to <= v@.len(),
    ensures
        r@ == v@.subrange(from as int, to as int),
{
    let mut r: Vec<u8> = Vec::new();
    let mut j: usize = from;
    while j < to
        invariant
            from <= j <= to <= v@.len(),
            r@ == v@.subrange(from as int, j as int),
        decreases to - j,
    {
        let b = v[j];
        r.push(b);
        j = j + 1;
        proof {
            assert(r@ =~= v@.subrange(from as int, j as int));
        }
    }
    r
}

/// Split `input` at the first `:-` into the handler's value and its default.
pub(crate) fn split_default(input: &Vec<u8>) -> (r: (Vec<u8>, Vec<u8>))
    ensures
        r.0@ == split_at_delim(input@).0,
        r.1@ == split_at_delim(input@).1,
{
    let n = input.len();
    let mut i: usize = 0;
    while n >= 2 && i <= n - 2 && !(input[i] == COLON && input[i + 1] == DASH)
        invariant
            i <= n == input@.len(),
            delim_from(input@, 0) == delim_from(input@, i as int),
        decreases n - i,
    {
        i = i + 1;
    }
    if n >= 2 && i <= n - 2 {
        assert(delim_from(input@, i as int) == Some(i as int));
        let before = subvec(input, 0, i);
        let after = subvec(input, i + 2, n);
        proof {
            assert(before@ =~= input@.take(i as int));
            assert(after@ =~= input@.skip(i as int + 2));
        }
        (before, after)
    } else {
        assert(delim_from(input@, i as int) is None);
        let all = subvec(input, 0, n);
        proof {
            assert(all@ =~= input@);
        }
        (all, Vec::new())
    }
}

// ---------------------------------------------------------------------------
// The date approximator
// ---------------------------------------------------------------------------
/// An unquoted ASCII letter of a `date:` pattern is a format letter; the
/// approximation gives each one empty output, so that payload bytes assembled
/// around the date expansion can reach a fixed point.
pub open spec fn is_pattern_letter(b: u8) -> bool {
    (65 <= b && b <= 90) || (97 <= b && b <= 122)
}

pub(crate) fn is_pattern_letter_ex(b: u8) -> (r: bool)
    ensures
        r == is_pattern_letter(b),
{
    (65 <= b && b <= 90) || (97 <= b && b <= 122)
}

/// The date approximation of `s[i..]`, entered with the given quoting state;
/// `lastq` says whether `s[i-1]` was a single quote.
pub open spec fn date_from(s: Seq<u8>, i: int, quoted: bool, lastq: bool) -> Seq<u8>
    decreases s.len() - i,
{
    if i < 0 || i >= s.len() {
        Seq::<u8>::empty()
    } else {
        let b = s[i];
        if b == QUOTE {
            if lastq {
                date_from(s, i + 1, false, true)
            } else if quoted {
                date_from(s, i + 1, false, true)
            } else {
                date_from(s, i + 1, true, true)
            }
        } else if is_pattern_letter(b) {
            if quoted {
                seq![b] + date_from(s, i + 1, quoted, false)
            } else {
                date_from(s, i + 1, quoted, false)
            }
        } else {
            seq![b] + date_from(s, i + 1, quoted, false)
        }
    }
}

/// The date approximation: quoted text is kept, each unquoted format letter
/// expands to nothing, and `''` is an empty quoted region.
pub open spec fn spec_date(s: Seq<u8>) -> Seq<u8> {
    date_from(s, 0, false, false)
}

/// Expand a `date:` format argument without consulting a clock: quoted text
/// is copied, each unquoted format letter contributes nothing.
pub(crate) fn substitute_date(input: &Vec<u8>) -> (r: Vec<u8>)
    ensures
        r@ == spec_date(input@),
{
    let mut out: Vec<u8> = Vec::new();
    let mut quoted = false;
    let mut lastq = false;
    let mut i: usize = 0;
    while i < input.len()
        invariant
            i <= input@.len(),
            spec_date(input@) == out@ + date_from(input@, i as int, quoted, lastq),
        decreases input.len() - i,
    {
        let b = input[i];
        if b == QUOTE {
            if lastq || quoted {
                quoted = false;
            } else {
                quoted = true;
            }
            lastq = true;
        } else if is_pattern_letter_ex(b) {
            if quoted {
                out.push(b);
            }
            lastq = false;
        } else {
            out.push(b);
            lastq = false;
        }
        i = i + 1;
    }
    out
}

// ---------------------------------------------------------------------------
// Handler prefixes and error substitutes, as byte strings
// ---------------------------------------------------------------------------
/// The handler prefix `lower:`.
pub open spec fn lower_prefix() -> Seq<u8> {
    seq![
        108, 111, 119, 101, 114, 58,
    ]
}

/// The handler prefix `upper:`.
pub open spec fn upper_prefix() -> Seq<u8> {
    seq![
        117, 112, 112, 101, 114, 58,
    ]
}

/// The handler prefix `base64:`.
pub open spec fn base64_prefix() -> Seq<u8> {
    seq![
        98, 97, 115, 101, 54, 52, 58,
    ]
}

/// The handler prefix `jndi:`.
pub open spec fn jndi_prefix() -> Seq<u8> {
    seq![
        106, 110, 100, 105, 58,
    ]
}

/// The handler prefix `env:`.
pub open spec fn env_prefix() -> Seq<u8> {
    seq![
        101, 110, 118, 58,
    ]
}

/// The handler prefix `main:`.
pub open spec fn main_prefix() -> Seq<u8> {
    seq![
        109, 97, 105, 110, 58,
    ]
}

/// The handler prefix `date:`.
pub open spec fn date_prefix() -> Seq<u8> {
    seq![
        100, 97, 116, 101, 58,
    ]
}

/// `ERROR_RECURSION_LIMIT_REACHED`, the substitute for a region dispatched
/// with an exhausted budget.
pub open spec fn recursion_sentinel() -> Seq<u8> {
    seq![
        69, 82, 82, 79, 82, 95, 82, 69, 67, 85, 82, 83, 73, 79, 78,
        95, 76, 73, 77, 73, 84, 95, 82, 69, 65, 67, 72, 69, 68,
    ]
}

/// `ERROR_LOWER_INVALID_UTF8`, the substitute when a `lower:` argument is not
/// valid UTF-8.
pub open spec fn lower_error() -> Seq<u8> {
    seq![
        69, 82, 82, 79, 82, 95, 76, 79, 87, 69, 82, 95, 73, 78, 86,
        65, 76, 73, 68, 95, 85, 84, 70, 56,
    ]
}

/// `ERROR_UPPER_INVALID_UTF8`, the substitute when an `upper:` argument is
/// not valid UTF-8.
pub open spec fn upper_error() -> Seq<u8> {
    seq![
        69, 82, 82, 79, 82, 95, 85, 80, 80, 69, 82, 95, 73, 78, 86,
        65, 76, 73, 68, 95, 85, 84, 70, 56,
    ]
}

/// `ERROR_BASE64_DECODE_INVALID`, the substitute when a `base64:` argument
/// does not decode.
pub open spec fn base64_error() -> Seq<u8> {
    seq![
        69, 82, 82, 79, 82, 95, 66, 65, 83, 69, 54, 52, 95, 68, 69,
        67, 79, 68, 69, 95, 73, 78, 86, 65, 76, 73, 68,
    ]
}

pub(crate) fn lower_prefix_vec() -> (r: Vec<u8>)
    ensures
        r@ == lower_prefix(),
{
    let mut v: Vec<u8> = Vec::new();
    v.push(108);
    v.push(111);
    v.push(119);
    v.push(101);
    v.push(114);
    v.push(58);
    proof {
        assert(v@ =~= lower_prefix());
    }
    v
}

pub(crate) fn upper_prefix_vec() -> (r: Vec<u8>)
    ensures
        r@ == upper_prefix(),
{
    let mut v: Vec<u8> = Vec::new();
    v.push(117);
    v.push(112);
    v.push(112);
    v.push(101);
    v.push(114);
    v.push(58);
    proof {
        assert(v@ =~= upper_prefix());
    }
    v
}

pub(crate) fn base64_prefix_vec() -> (r: Vec<u8>)
    ensures
        r@ == base64_prefix(),
{
    let mut v: Vec<u8> = Vec::new();
    v.push(98);
    v.push(97);
    v.push(115);
    v.push(101);
    v.push(54);
    v.push(52);
    v.push(58);
    proof {
        assert(v@ =~= base64_prefix());
    }
    v
}

pub(crate) fn jndi_prefix_vec() -> (r: Vec<u8>)
    ensures
        r@ == jndi_prefix(),
{
    let mut v: Vec<u8> = Vec::new();
    v.push(106);
    v.push(110);
    v.push(100);
    v.push(105);
    v.push(58);
    proof {
        assert(v@ =~= jndi_prefix());
    }
    v
}

pub(crate) fn env_prefix_vec() -> (r: Vec<u8>)
    ensures
        r@ == env_prefix(),
{
    let mut v: Vec<u8> = Vec::new();
    v.push(101);
    v.push(110);
    v.push(118);
    v.push(58);
    proof {
        assert(v@ =~= env_prefix());
    }
    v
}

pub(crate) fn main_prefix_vec() -> (r: Vec<u8>)
    ensures
        r@ == main_prefix(),
{
    let mut v: Vec<u8> = Vec::new();
    v.push(109);
    v.push(97);
    v.push(105);
    v.push(110);
    v.push(58);
    proof {
        assert(v@ =~= main_prefix());
    }
    v
}

pub(crate) fn date_prefix_vec() -> (r: Vec<u8>)
    ensures
        r@ == date_prefix(),
{
    let mut v: Vec<u8> = Vec::new();
    v.push(100);
    v.push(97);
    v.push(116);
    v.push(101);
    v.push(58);
    proof {
        assert(v@ =~= date_prefix());
    }
    v
}

pub(crate) fn recursion_sentinel_vec() -> (r: Vec<u8>)
    ensures
        r@ == recursion_sentinel(),
{
    let mut v: Vec<u8> = Vec::new();
    v.push(69);
    v.push(82);
    v.push(82);
    v.push(79);
    v.push(82);
    v.push(95);
    v.push(82);
    v.push(69);
    v.push(67);
    v.push(85);
    v.push(82);
    v.push(83);
    v.push(73);
    v.push(79);
    v.push(78);
    v.push(95);
    v.push(76);
    v.push(73);
    v.push(77);
    v.push(73);
    v.push(84);
    v.push(95);
    v.push(82);
    v.push(69);
    v.push(65);
    v.push(67);
    v.push(72);
    v.push(69);
    v.push(68);
    proof {
        assert(v@ =~= recursion_sentinel());
    }
    v
}

pub(crate) fn lower_error_vec() -> (r: Vec<u8>)
    ensures
        r@ == lower_error(),
{
    let mut v: Vec<u8> = Vec::new();
    v.push(69);
    v.push(82);
    v.push(82);
    v.push(79);
    v.push(82);
    v.push(95);
    v.push(76);
    v.push(79);
    v.push(87);
    v.push(69);
    v.push(82);
    v.push(95);
    v.push(73);
    v.push(78);
    v.push(86);
    v.push(65);
    v.push(76);
    v.push(73);
    v.push(68);
    v.push(95);
    v.push(85);
    v.push(84);
    v.push(70);
    v.push(56);
    proof {
        assert(v@ =~= lower_error());
    }
    v
}

pub(crate) fn upper_error_vec() -> (r: Vec<u8>)
    ensures
        r@ == upper_error(),
{
    let mut v: Vec<u8> = Vec::new();
    v.push(69);
    v.push(82);
    v.push(82);
    v.push(79);
    v.push(82);
    v.push(95);
    v.push(85);
    v.push(80);
    v.push(80);
    v.push(69);
    v.push(82);
    v.push(95);
    v.push(73);
    v.push(78);
    v.push(86);
    v.push(65);
    v.push(76);
    v.push(73);
    v.push(68);
    v.push(95);
    v.push(85);
    v.push(84);
    v.push(70);
    v.push(56);
    proof {
        assert(v@ =~= upper_error());
    }
    v
}

pub(crate) fn base64_error_vec() -> (r: Vec<u8>)
    ensures
        r@ == base64_error(),
{
    let mut v: Vec<u8> = Vec::new();
    v.push(69);
    v.push(82);
    v.push(82);
    v.push(79);
    v.push(82);
    v.push(95);
    v.push(66);
    v.push(65);
    v.push(83);
    v.push(69);
    v.push(54);
    v.push(52);
    v.push(95);
    v.push(68);
    v.push(69);
    v.push(67);
    v.push(79);
    v.push(68);
    v.push(69);
    v.push(95);
    v.push(73);
    v.push(78);
    v.push(86);
    v.push(65);
    v.push(76);
    v.push(73);
    v.push(68);
    proof {
        assert(v@ =~= base64_error());
    }
    v
}
// ---------------------------------------------------------------------------
// Handler dispatch
// ---------------------------------------------------------------------------
/// What one `${...}` region expands to, given its already-expanded inner
/// bytes: the handler's output and the handler that was dispatched, if any.
pub open spec fn spec_substitute(inner: Seq<u8>) -> (Seq<u8>, Option<Handler>) {
    let value = split_at_delim(inner).0;
    let dflt = split_at_delim(inner).1;
    if has_prefix_fold(value, lower_prefix()) {
        let arg = value.skip(lower_prefix().len() as int);
        if valid_utf8(arg) {
            (encode_utf8(lowercased(decode_utf8(arg))), Some(Handler::Lower))
        } else {
            (lower_error(), None)
        }
    } else if has_prefix_fold(value, upper_prefix()) {
        let arg = value.skip(upper_prefix().len() as int);
        if valid_utf8(arg) {
            (encode_utf8(uppercased(decode_utf8(arg))), Some(Handler::Upper))
        } else {
            (upper_error(), None)
        }
    } else if has_prefix_fold(value, base64_prefix()) {
        let arg = value.skip(base64_prefix().len() as int);
        match base64_decoded(arg) {
            Some(d) => (d, Some(Handler::Base64)),
            None => (base64_error(), None),
        }
    } else if has_prefix_fold(value, jndi_prefix()) {
        (value, Some(Handler::Jndi))
    } else if has_prefix_fold(value, env_prefix()) {
        (dflt, Some(Handler::Env))
    } else if has_prefix_fold(value, main_prefix()) {
        (dflt, Some(Handler::Main))
    } else if has_prefix_fold(value, date_prefix()) {
        (spec_date(value.skip(date_prefix().len() as int)), Some(Handler::Date))
    } else {
        (dflt, None)
    }
}

/// Classify one region's expanded inner bytes by case-insensitive prefix and
/// apply the matching handler. The interpreter never resolves a lookup: `env`
/// and `main` yield their `:-` default, `jndi` yields its whole value so that
/// later passes and downstream scanners can still see it.
pub(crate) fn substitute(input: &Vec<u8>) -> (r: (Vec<u8>, Option<Handler>))
    ensures
        (r.0@, r.1) == spec_substitute(input@),
{
    let (value, dflt) = split_default(input);
    if let Some(rest) = strip_lower_ascii_prefix(&value, &lower_prefix_vec()) {
        match utf8_decode(&rest) {
            Some(s) => {
                let low = lowercase(s.as_str());
                (low.as_str().as_bytes_vec(), Some(Handler::Lower))
            },
            None => (lower_error_vec(), None),
        }
    } else if let Some(rest) = strip_lower_ascii_prefix(&value, &upper_prefix_vec()) {
        match utf8_decode(&rest) {
            Some(s) => {
                let up = uppercase(s.as_str());
                (up.as_str().as_bytes_vec(), Some(Handler::Upper))
            },
            None => (upper_error_vec(), None),
        }
    } else if let Some(rest) = strip_lower_ascii_prefix(&value, &base64_prefix_vec()) {
        match b64_decode(&rest) {
            Some(d) => (d, Some(Handler::Base64)),
            None => (base64_error_vec(), None),
        }
    } else if strip_lower_ascii_prefix(&value, &jndi_prefix_vec()).is_some() {
        (value, Some(Handler::Jndi))
    } else if strip_lower_ascii_prefix(&value, &env_prefix_vec()).is_some() {
        (dflt, Some(Handler::Env))
    } else if strip_lower_ascii_prefix(&value, &main_prefix_vec()).is_some() {
        (dflt, Some(Handler::Main))
    } else if let Some(rest) = strip_lower_ascii_prefix(&value, &date_prefix_vec()) {
        (substitute_date(&rest), Some(Handler::Date))
    } else {
        (dflt, None)
    }
}

} // verus!
