//! Character and string groundwork shared by the transport codecs and the
//! command dispatcher: conversions between `str` and character vectors,
//! substring search, whitespace tokenization, and decimal rendering/parsing.
use vstd::prelude::*;
use vstd::string::*;

verus! {

// ---------------------------------------------------------------------------
// Character classes
// ---------------------------------------------------------------------------
pub open spec fn is_dec_digit(c: char) -> bool {
    '0' <= c && c <= '9'
}

pub open spec fn digit_of(c: char) -> int
    recommends
        is_dec_digit(c),
{
    c as int - '0' as int
}

pub open spec fn dec_digit(d: int) -> char
    recommends
        0 <= d < 10,
{
    (d + '0' as int) as char
}

pub open spec fn is_space_char(c: char) -> bool {
    c == ' ' || c == '\t' || c == '\n' || c == '\r'
}

/// ASCII-only case folding: the command words this daemon dispatches on are
/// plain ASCII, so only 'A'..'Z' are folded.
pub open spec fn spec_lower_char(c: char) -> char {
    if 'A' <= c && c <= 'Z' {
        (c as int + 32) as char
    } else {
        c
    }
}

pub open spec fn spec_lower(s: Seq<char>) -> Seq<char> {
    s.map_values(|c: char| spec_lower_char(c))
}

pub fn lower_char(c: char) -> (r: char)
    ensures
        r == spec_lower_char(c),
{
    let u: u32 = c as u32;
    if 65 <= u && u <= 90 {
        ((u + 32) as u8) as char
    } else {
        c
    }
}

// ---------------------------------------------------------------------------
// Conversions between `str`/`String` and character vectors
// ---------------------------------------------------------------------------
#[verifier::loop_isolation(false)]
pub fn lower_chars(v: &Vec<char>) -> (r: Vec<char>)
    ensures
        r@ == spec_lower(v@),
{
    let n: usize = v.len();
    let mut r: Vec<char> = Vec::new();
    let mut i: usize = 0;
    while i < n
        invariant
            i <= n,
            n == v@.len(),
            r@.len() == i,
            forall|j: int| 0 <= j < i ==> r@[j] == spec_lower_char(v@[j]),
        decreases n - i,
    {
        r.push(lower_char(v[i]));
        i = i + 1;
    }
    proof {
        assert(r@ =~= spec_lower(v@));
    }
    r
}

#[verifier::loop_isolation(false)]
pub fn str_to_chars(s: &str) -> (r: Vec<char>)
    ensures
        r@ == s@,
{
    let n: usize = s.unicode_len();
    let mut v: Vec<char> = Vec::new();
    let mut i: usize = 0;
    while i < n
        invariant
            i <= n,
            n == s@.len(),
            v@ == s@.take(i as int),
        decreases n - i,
    {
        v.push(s.get_char(i));
        proof {
            assert(s@.take(i as int).push(s@[i as int]) =~= s@.take(i as int + 1));
        }
        i = i + 1;
    }
    proof {
        assert(s@.take(n as int) =~= s@);
    }
    v
}

/// Relies on `String::push`: appends the given character to the end of the
/// string's character sequence.
#[verifier::external_body]
pub fn push_char(s: &mut String, c: char)
    ensures
        final(s)@ == old(s)@.push(c),
{
    s.push(c);
}

#[verifier::loop_isolation(false)]
pub fn chars_to_string(v: &Vec<char>) -> (r: String)
    ensures
        r@ == v@,
{
    let mut s: String = String::new();
    let mut i: usize = 0;
    while i < v.len()
        invariant
            i <= v@.len(),
            s@ == v@.take(i as int),
        decreases v@.len() - i,
    {
        push_char(&mut s, v[i]);
        proof {
            assert(v@.take(i as int).push(v@[i as int]) =~= v@.take(i as int + 1));
        }
        i = i + 1;
    }
    proof {
        assert(v@.take(v@.len() as int) =~= v@);
    }
    s
}

#[verifier::loop_isolation(false)]
pub fn str_eq(a: &str, b: &str) -> (r: bool)
    ensures
        r == (a@ == b@),
{
    let na: usize = a.unicode_len();
    let nb: usize = b.unicode_len();
    if na != nb {
        return false;
    }
    let mut i: usize = 0;
    while i < na
        invariant
            i <= na,
            na == a@.len(),
            na == b@.len(),
            forall|j: int| 0 <= j < i ==> a@[j] == b@[j],
        decreases na - i,
    {
        if a.get_char(i) != b.get_char(i) {
            return false;
        }
        i = i + 1;
    }
    proof {
        assert(a@ =~= b@);
    }
    true
}

// ---------------------------------------------------------------------------
// Substring search
// ---------------------------------------------------------------------------
/// The pattern `pat` occurs in `s` starting at index `i`.
pub open spec fn match_at(s: Seq<char>, pat: Seq<char>, i: int) -> bool {
    0 <= i && i + pat.len() <= s.len() && s.subrange(i, i + pat.len() as int) == pat
}

pub open spec fn contains_sub(s: Seq<char>, pat: Seq<char>) -> bool {
    exists|i: int| match_at(s, pat, i)
}

#[verifier::loop_isolation(false)]
fn match_here(s: &Vec<char>, pat: &Vec<char>, i: usize) -> (r: bool)
    requires
        i + pat@.len() <= s@.len(),
    ensures
        r == match_at(s@, pat@, i as int),
{
    let n: usize = s.len();
    let mut k: usize = 0;
    while k < pat.len()
        invariant
            k <= pat@.len(),
            i + pat@.len() <= s@.len(),
            n == s@.len(),
            forall|j: int| 0 <= j < k ==> s@[i + j] == pat@[j],
        decreases pat@.len() - k,
    {
        if s[i + k] != pat[k] {
            proof {
                assert(s@.subrange(i as int, i + pat@.len() as int)[k as int] == s@[i + k]);
            }
            return false;
        }
        k = k + 1;
    }
    proof {
        assert(s@.subrange(i as int, i + pat@.len() as int) =~= pat@);
    }
    true
}

/// First occurrence of `pat` in `s` at or after index `from`.
#[verifier::loop_isolation(false)]
pub fn find_sub_from(s: &Vec<char>, pat: &Vec<char>, from: usize) -> (r: Option<usize>)
    requires
        pat@.len() >= 1,
    ensures
        match r {
            Some(i) => from <= i && match_at(s@, pat@, i as int) && forall|j: int|
                from <= j < i ==> !match_at(s@, pat@, j),
            None => forall|j: int| from <= j ==> !match_at(s@, pat@, j),
        },
{
    if s.len() < pat.len() || from > s.len() - pat.len() {
        return None;
    }
    let last: usize = s.len() - pat.len();
    let mut i: usize = from;
    while i <= last
        invariant
            from <= i <= last + 1,
            forall|j: int| from <= j < i ==> !match_at(s@, pat@, j),
        decreases last + 1 - i,
    {
        if match_here(s, pat, i) {
            return Some(i);
        }
        i = i + 1;
    }
    None
}

/// Index of the first occurrence of `pat` at or after `from`, if any.
pub open spec fn first_occurrence(s: Seq<char>, pat: Seq<char>, from: int) -> Option<int>
    decreases s.len() - from + 1,
{
    if from < 0 || from + pat.len() > s.len() {
        None
    } else if match_at(s, pat, from) {
        Some(from)
    } else {
        first_occurrence(s, pat, from + 1)
    }
}

pub proof fn lemma_first_occurrence_none(s: Seq<char>, pat: Seq<char>, from: int)
    requires
        0 <= from,
        forall|j: int| from <= j ==> !match_at(s, pat, j),
    ensures
        first_occurrence(s, pat, from) is None,
    decreases s.len() - from + 1,
{
    if from + pat.len() <= s.len() {
        lemma_first_occurrence_none(s, pat, from + 1);
    }
}

pub proof fn lemma_first_occurrence_some(s: Seq<char>, pat: Seq<char>, from: int, i: int)
    requires
        0 <= from <= i,
        match_at(s, pat, i),
        forall|j: int| from <= j < i ==> !match_at(s, pat, j),
    ensures
        first_occurrence(s, pat, from) == Some(i),
    decreases i - from,
{
    if from < i {
        lemma_first_occurrence_some(s, pat, from + 1, i);
    }
}

/// Exec counterpart of `first_occurrence`.
pub fn find_first(s: &Vec<char>, pat: &Vec<char>, from: usize) -> (r: Option<usize>)
    requires
        pat@.len() >= 1,
    ensures
        match r {
            Some(i) => first_occurrence(s@, pat@, from as int) == Some(i as int) && from <= i
                && match_at(s@, pat@, i as int),
            None => first_occurrence(s@, pat@, from as int) is None,
        },
{
    match find_sub_from(s, pat, from) {
        Some(i) => {
            proof {
                lemma_first_occurrence_some(s@, pat@, from as int, i as int);
            }
            Some(i)
        },
        None => {
            proof {
                lemma_first_occurrence_none(s@, pat@, from as int);
            }
            None
        },
    }
}

/// Whether `pat` occurs anywhere in `s`; the check every transaction step
/// makes on the channel's response (`OK`, the send prompt, an error token).
pub fn chars_contain(s: &Vec<char>, pat: &Vec<char>) -> (r: bool)
    requires
        pat@.len() >= 1,
    ensures
        r == contains_sub(s@, pat@),
{
    match find_sub_from(s, pat, 0) {
        Some(_) => true,
        None => false,
    }
}

// ---------------------------------------------------------------------------
// Whitespace tokenization (only the leading tokens are ever needed)
// ---------------------------------------------------------------------------
pub open spec fn skip_spaces(s: Seq<char>) -> Seq<char>
    decreases s.len(),
{
    if s.len() > 0 && is_space_char(s[0]) {
        skip_spaces(s.skip(1))
    } else {
        s
    }
}

/// Length of the leading run of non-space characters.
pub open spec fn token_end(s: Seq<char>) -> int
    decreases s.len(),
{
    if s.len() == 0 || is_space_char(s[0]) {
        0
    } else {
        1 + token_end(s.skip(1))
    }
}

/// The first whitespace-delimited token of `s` and what follows it, if any.
pub open spec fn first_token(s: Seq<char>) -> Option<(Seq<char>, Seq<char>)> {
    let t = skip_spaces(s);
    if t.len() == 0 {
        None
    } else {
        Some((t.take(token_end(t)), t.skip(token_end(t))))
    }
}

proof fn lemma_skip_spaces_step(s: Seq<char>, i: int)
    requires
        0 <= i < s.len(),
        is_space_char(s[i]),
    ensures
        skip_spaces(s.skip(i)) == skip_spaces(s.skip(i + 1)),
{
    assert(s.skip(i).len() > 0);
    assert(s.skip(i)[0] == s[i]);
    assert(s.skip(i).skip(1) =~= s.skip(i + 1));
}

proof fn lemma_skip_spaces_here(s: Seq<char>, i: int)
    requires
        0 <= i <= s.len(),
        i == s.len() || !is_space_char(s[i]),
    ensures
        skip_spaces(s.skip(i)) == s.skip(i),
{
    if i < s.len() {
        assert(s.skip(i)[0] == s[i]);
    }
}

proof fn lemma_token_end_step(s: Seq<char>, i: int, k: int)
    requires
        0 <= i <= k <= s.len(),
        forall|j: int| i <= j < k ==> !is_space_char(s[j]),
        k == s.len() || is_space_char(s[k]),
    ensures
        token_end(s.skip(i)) == k - i,
    decreases k - i,
{
    if i == k {
        if k < s.len() {
            assert(s.skip(i)[0] == s[i]);
        }
    } else {
        assert(s.skip(i)[0] == s[i]);
        assert(s.skip(i).skip(1) =~= s.skip(i + 1));
        lemma_token_end_step(s, i + 1, k);
    }
}

/// Scan for the first token at or after index `from`: the token's characters
/// and the index just past it.
#[verifier::loop_isolation(false)]
pub fn next_token(s: &Vec<char>, from: usize) -> (r: Option<(Vec<char>, usize)>)
    requires
        from <= s@.len(),
    ensures
        match r {
            Some(p) => {
                &&& first_token(s@.skip(from as int)) is Some
                &&& p.0@ == first_token(s@.skip(from as int)).unwrap().0
                &&& p.1 <= s@.len()
                &&& s@.skip(p.1 as int) == first_token(s@.skip(from as int)).unwrap().1
            },
            None => first_token(s@.skip(from as int)) is None,
        },
{
    let mut i: usize = from;
    while i < s.len() && is_space(s[i])
        invariant
            from <= i <= s@.len(),
            skip_spaces(s@.skip(from as int)) == skip_spaces(s@.skip(i as int)),
        decreases s@.len() - i,
    {
        proof {
            lemma_skip_spaces_step(s@, i as int);
        }
        i = i + 1;
    }
    proof {
        lemma_skip_spaces_here(s@, i as int);
    }
    if i == s.len() {
        proof {
            assert(s@.skip(i as int).len() == 0);
        }
        return None;
    }
    let start: usize = i;
    let mut k: usize = start;
    let mut tok: Vec<char> = Vec::new();
    while k < s.len() && !is_space(s[k])
        invariant
            start <= k <= s@.len(),
            forall|j: int| start <= j < k ==> !is_space_char(s@[j]),
            tok@ == s@.subrange(start as int, k as int),
        decreases s@.len() - k,
    {
        tok.push(s[k]);
        proof {
            assert(s@.subrange(start as int, k as int).push(s@[k as int]) =~= s@.subrange(
                start as int,
                k as int + 1,
            ));
        }
        k = k + 1;
    }
    proof {
        lemma_token_end_step(s@, start as int, k as int);
        let t = s@.skip(start as int);
        assert(t.take(token_end(t)) =~= s@.subrange(start as int, k as int));
        assert(t.skip(token_end(t)) =~= s@.skip(k as int));
        assert(t.len() > 0);
    }
    Some((tok, k))
}

fn is_space(c: char) -> (r: bool)
    ensures
        r == is_space_char(c),
{
    c == ' ' || c == '\t' || c == '\n' || c == '\r'
}

/// Copy of the character range `[a, b)`.
#[verifier::loop_isolation(false)]
pub fn subrange_chars(s: &Vec<char>, a: usize, b: usize) -> (r: Vec<char>)
    requires
        a <= b <= s@.len(),
    ensures
        r@ == s@.subrange(a as int, b as int),
{
    let mut r: Vec<char> = Vec::new();
    let mut i: usize = a;
    while i < b
        invariant
            a <= i <= b,
            b <= s@.len(),
            r@ == s@.subrange(a as int, i as int),
        decreases b - i,
    {
        r.push(s[i]);
        proof {
            assert(s@.subrange(a as int, i as int).push(s@[i as int]) =~= s@.subrange(
                a as int,
                i as int + 1,
            ));
        }
        i = i + 1;
    }
    r
}

// ---------------------------------------------------------------------------
// First match in a sequence
// ---------------------------------------------------------------------------
/// Index of the first element at or after `from` satisfying `f`.
pub open spec fn spec_find<A>(s: Seq<A>, from: int, f: spec_fn(A) -> bool) -> Option<int>
    decreases s.len() - from,
{
    if from < 0 || from >= s.len() {
        None
    } else if f(s[from]) {
        Some(from)
    } else {
        spec_find(s, from + 1, f)
    }
}

pub proof fn lemma_spec_find_props<A>(s: Seq<A>, from: int, f: spec_fn(A) -> bool)
    requires
        0 <= from <= s.len(),
    ensures
        match spec_find(s, from, f) {
            Some(i) => from <= i < s.len() && f(s[i]) && forall|j: int| from <= j < i ==> !f(s[j]),
            None => forall|j: int| from <= j < s.len() ==> !f(s[j]),
        },
    decreases s.len() - from,
{
    if from < s.len() {
        if !f(s[from]) {
            lemma_spec_find_props(s, from + 1, f);
        }
    }
}

// ---------------------------------------------------------------------------
// Decimal rendering and parsing
// ---------------------------------------------------------------------------
/// Decimal digits of `n`, most significant first.
pub open spec fn spec_dec(n: nat) -> Seq<char>
    decreases n,
{
    if n < 10 {
        seq![dec_digit(n as int)]
    } else {
        spec_dec(n / 10).push(dec_digit((n % 10) as int))
    }
}

pub fn u64_to_dec_chars(n: u64) -> (r: Vec<char>)
    ensures
        r@ == spec_dec(n as nat),
    decreases n,
{
    if n < 10 {
        let mut v: Vec<char> = Vec::new();
        v.push(((n as u8) + 48) as char);
        proof {
            assert(v@ =~= seq![dec_digit(n as int)]);
        }
        v
    } else {
        let mut v: Vec<char> = u64_to_dec_chars(n / 10);
        v.push((((n % 10) as u8) + 48) as char);
        v
    }
}

pub fn u64_to_string(n: u64) -> (r: String)
    ensures
        r@ == spec_dec(n as nat),
{
    let v: Vec<char> = u64_to_dec_chars(n);
    chars_to_string(&v)
}

pub fn u32_to_string(n: u32) -> (r: String)
    ensures
        r@ == spec_dec(n as nat),
{
    u64_to_string(n as u64)
}

/// Decimal rendering of a signed value: a minus sign before the digits of the
/// magnitude when negative.
pub open spec fn spec_dec_i64(n: int) -> Seq<char> {
    if n < 0 {
        seq!['-'] + spec_dec((-n) as nat)
    } else {
        spec_dec(n as nat)
    }
}

#[verifier::loop_isolation(false)]
pub fn i32_to_string(n: i32) -> (r: String)
    ensures
        r@ == spec_dec_i64(n as int),
{
    if n < 0 {
        let m: u64 = (-(n as i64)) as u64;
        let digits: Vec<char> = u64_to_dec_chars(m);
        let mut v: Vec<char> = Vec::new();
        v.push('-');
        let mut i: usize = 0;
        while i < digits.len()
            invariant
                i <= digits@.len(),
                v@ == seq!['-'] + digits@.take(i as int),
            decreases digits@.len() - i,
        {
            v.push(digits[i]);
            proof {
                assert((seq!['-'] + digits@.take(i as int)).push(digits@[i as int]) =~= seq!['-']
                    + digits@.take(i as int + 1));
            }
            i = i + 1;
        }
        proof {
            assert(digits@.take(digits@.len() as int) =~= digits@);
        }
        chars_to_string(&v)
    } else {
        u64_to_string(n as u64)
    }
}

pub open spec fn all_dec_digits(s: Seq<char>) -> bool {
    forall|i: int| 0 <= i < s.len() ==> is_dec_digit(s[i])
}

/// Value of a digit string, most significant digit first.
pub open spec fn digits_val(s: Seq<char>) -> int
    decreases s.len(),
{
    if s.len() == 0 {
        0
    } else {
        digits_val(s.drop_last()) * 10 + digit_of(s.last())
    }
}

/// The tunnel-reference parser: a non-empty all-digit string whose value fits
/// in 32 bits.
pub open spec fn spec_parse_u32(s: Seq<char>) -> Option<u32> {
    if s.len() >= 1 && all_dec_digits(s) && digits_val(s) <= u32::MAX {
        Some(digits_val(s) as u32)
    } else {
        None
    }
}

proof fn lemma_digits_val_nonneg(s: Seq<char>)
    requires
        all_dec_digits(s),
    ensures
        digits_val(s) >= 0,
    decreases s.len(),
{
    if s.len() > 0 {
        assert(all_dec_digits(s.drop_last()));
        lemma_digits_val_nonneg(s.drop_last());
    }
}

proof fn lemma_digits_val_prefix_grows(s: Seq<char>, i: int)
    requires
        all_dec_digits(s),
        0 <= i <= s.len(),
    ensures
        digits_val(s.take(i)) <= digits_val(s),
    decreases s.len() - i,
{
    if i == s.len() {
        assert(s.take(i) =~= s);
    } else {
        lemma_digits_val_prefix_grows(s, i + 1);
        let t = s.take(i + 1);
        assert(t.drop_last() =~= s.take(i));
        assert(all_dec_digits(s.take(i)));
        lemma_digits_val_nonneg(s.take(i));
        assert(digits_val(t) == digits_val(s.take(i)) * 10 + digit_of(s[i]));
    }
}

#[verifier::loop_isolation(false)]
pub fn parse_u32_chars(s: &Vec<char>) -> (r: Option<u32>)
    ensures
        r == spec_parse_u32(s@),
{
    if s.len() == 0 {
        return None;
    }
    let mut acc: u64 = 0;
    let mut i: usize = 0;
    while i < s.len()
        invariant
            i <= s@.len(),
            s@.len() >= 1,
            forall|j: int| 0 <= j < i ==> is_dec_digit(s@[j]),
            acc == digits_val(s@.take(i as int)),
            acc <= u32::MAX,
        decreases s@.len() - i,
    {
        let c: char = s[i];
        if !(c >= '0' && c <= '9') {
            return None;
        }
        let d: u64 = (c as u32 - 48) as u64;
        acc = acc * 10 + d;
        proof {
            assert(s@.take(i as int + 1).drop_last() =~= s@.take(i as int));
        }
        i = i + 1;
        if acc > 0xffff_ffff {
            proof {
                assert(s@.take(i as int).len() >= 1);
                if all_dec_digits(s@) && digits_val(s@) <= u32::MAX {
                    lemma_digits_val_prefix_grows(s@, i as int);
                }
            }
            return None;
        }
    }
    proof {
        assert(s@.take(s@.len() as int) =~= s@);
    }
    Some(acc as u32)
}

} // verus!
