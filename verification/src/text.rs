//! A model of text as a sequence of `char`s together with the byte offsets
//! that its UTF-8 encoding gives each position, and the text operations
//! that the rest of the library is built from.
use vstd::prelude::*;

verus! {

/// Number of bytes that the UTF-8 encoding of `c` takes.
pub open spec fn char_width(c: char) -> nat {
    let u = c as u32;
    if u < 0x80 {
        1
    } else if u < 0x800 {
        2
    } else if u < 0x10000 {
        3
    } else {
        4
    }
}

/// Number of bytes of the UTF-8 encoding of `s`.
pub open spec fn byte_len(s: Seq<char>) -> nat
    decreases s.len(),
{
    if s.len() == 0 {
        0
    } else {
        char_width(s[0]) + byte_len(s.drop_first())
    }
}

/// Byte offset at which the `k`-th character of `s` starts.
pub open spec fn byte_offset(s: Seq<char>, k: int) -> nat {
    byte_len(s.take(k))
}

/// `i` is a byte offset that falls between two characters of `s` (or at one of its ends).
pub open spec fn is_boundary(s: Seq<char>, i: int) -> bool {
    exists|k: int| 0 <= k <= s.len() && #[trigger] byte_offset(s, k) == i
}

/// The number of leading characters of `s` whose encoding fits in `budget` bytes.
pub open spec fn chars_within(s: Seq<char>, budget: int) -> nat
    decreases s.len(),
{
    if s.len() == 0 || budget < char_width(s[0]) {
        0
    } else {
        1 + chars_within(s.drop_first(), budget - char_width(s[0]))
    }
}

/// Character index of the largest boundary at or below byte offset `i`.
pub open spec fn floor_index(s: Seq<char>, i: int) -> nat {
    chars_within(s, i)
}

/// Character index of the smallest boundary at or above byte offset `i` (for `i` within the text).
pub open spec fn ceil_index(s: Seq<char>, i: int) -> nat {
    let k = floor_index(s, i);
    if byte_offset(s, k as int) >= i {
        k
    } else {
        k + 1
    }
}

/// The Unicode `White_Space` property, which `char::is_whitespace` tests.
pub open spec fn is_white_space(c: char) -> bool {
    let u = c as u32;
    (0x09 <= u && u <= 0x0d) || u == 0x20 || u == 0x85 || u == 0xa0 || u == 0x1680 || (0x2000 <= u
        && u <= 0x200a) || u == 0x2028 || u == 0x2029 || u == 0x202f || u == 0x205f || u == 0x3000
}

/// Number of leading white-space characters of `s`.
pub open spec fn leading_white(s: Seq<char>) -> nat
    decreases s.len(),
{
    if s.len() > 0 && is_white_space(s[0]) {
        1 + leading_white(s.drop_first())
    } else {
        0
    }
}

/// Number of trailing white-space characters of `s`.
pub open spec fn trailing_white(s: Seq<char>) -> nat
    decreases s.len(),
{
    if s.len() > 0 && is_white_space(s.last()) {
        1 + trailing_white(s.drop_last())
    } else {
        0
    }
}

/// `s` without its leading and trailing white space (what `str::trim` gives).
pub open spec fn trim(s: Seq<char>) -> Seq<char> {
    let t = s.skip(leading_white(s) as int);
    t.take(t.len() - trailing_white(t))
}

/// `needle` occurs in `hay` starting at position `i`.
pub open spec fn occurs_at(hay: Seq<char>, needle: Seq<char>, i: int) -> bool {
    0 <= i && i + needle.len() <= hay.len() && hay.subrange(i, i + needle.len()) == needle
}

/// `needle` occurs somewhere in `hay`.
pub open spec fn contains(hay: Seq<char>, needle: Seq<char>) -> bool {
    exists|i: int| #[trigger] occurs_at(hay, needle, i)
}

/// `s` with every non-overlapping occurrence of `from`, scanned from the left,
/// replaced by `to` (what `str::replace` gives for a non-empty pattern).
pub open spec fn replace_literal(s: Seq<char>, from: Seq<char>, to: Seq<char>) -> Seq<char>
    decreases s.len(),
{
    if from.len() == 0 || s.len() < from.len() {
        s
    } else if s.take(from.len() as int) == from {
        to + replace_literal(s.skip(from.len() as int), from, to)
    } else {
        seq![s[0]] + replace_literal(s.drop_first(), from, to)
    }
}

/// Index of the last occurrence of `c` in `s`.
pub open spec fn last_index_of(s: Seq<char>, c: char) -> Option<int>
    decreases s.len(),
{
    if s.len() == 0 {
        None
    } else if s.last() == c {
        Some(s.len() - 1)
    } else {
        last_index_of(s.drop_last(), c)
    }
}

// ---------------------------------------------------------------------------
// Lemmas on the byte model
// ---------------------------------------------------------------------------

pub proof fn lemma_byte_len_concat(a: Seq<char>, b: Seq<char>)
    ensures
        byte_len(a + b) == byte_len(a) + byte_len(b),
    decreases a.len(),
{
    if a.len() == 0 {
        assert(a + b =~= b);
    } else {
        lemma_byte_len_concat(a.drop_first(), b);
        assert((a + b).drop_first() =~= a.drop_first() + b);
    }
}

pub proof fn lemma_byte_len_single(c: char)
    ensures
        byte_len(seq![c]) == char_width(c),
{
    assert(seq![c].drop_first() =~= Seq::<char>::empty());
    assert(byte_len(seq![c].drop_first()) == 0);
}

pub proof fn lemma_offset_step(s: Seq<char>, k: int)
    requires
        0 <= k < s.len(),
    ensures
        byte_offset(s, k + 1) == byte_offset(s, k) + char_width(s[k]),
{
    assert(s.take(k + 1) =~= s.take(k) + seq![s[k]]);
    lemma_byte_len_concat(s.take(k), seq![s[k]]);
    lemma_byte_len_single(s[k]);
}

pub proof fn lemma_offset_zero_full(s: Seq<char>)
    ensures
        byte_offset(s, 0) == 0,
        byte_offset(s, s.len() as int) == byte_len(s),
{
    assert(s.take(0) =~= Seq::<char>::empty());
    assert(s.take(s.len() as int) =~= s);
}

pub proof fn lemma_offset_strictly_increasing(s: Seq<char>, j: int, k: int)
    requires
        0 <= j < k <= s.len(),
    ensures
        byte_offset(s, j) < byte_offset(s, k),
    decreases k - j,
{
    lemma_offset_step(s, k - 1);
    if j < k - 1 {
        lemma_offset_strictly_increasing(s, j, k - 1);
    }
}

pub proof fn lemma_offset_monotone(s: Seq<char>, j: int, k: int)
    requires
        0 <= j <= k <= s.len(),
    ensures
        byte_offset(s, j) <= byte_offset(s, k),
{
    if j < k {
        lemma_offset_strictly_increasing(s, j, k);
    }
}

/// Offsets in `s` relate to offsets in `s` without its first character.
pub proof fn lemma_offset_drop_first(s: Seq<char>, k: int)
    requires
        0 < k <= s.len(),
    ensures
        byte_offset(s, k) == char_width(s[0]) + byte_offset(s.drop_first(), k - 1),
{
    assert(s.take(k).drop_first() =~= s.drop_first().take(k - 1));
}

/// What `chars_within` counts: the largest prefix whose encoding fits the budget.
pub proof fn lemma_chars_within(s: Seq<char>, budget: int)
    requires
        budget >= 0,
    ensures
        chars_within(s, budget) <= s.len(),
        byte_offset(s, chars_within(s, budget) as int) <= budget,
        chars_within(s, budget) < s.len() ==> byte_offset(s, chars_within(s, budget) as int + 1)
            > budget,
    decreases s.len(),
{
    lemma_offset_zero_full(s);
    let k = chars_within(s, budget);
    if s.len() == 0 {
    } else if budget < char_width(s[0]) {
        lemma_offset_step(s, 0);
    } else {
        let t = s.drop_first();
        let b2 = budget - char_width(s[0]);
        lemma_chars_within(t, b2);
        lemma_offset_drop_first(s, k as int);
        if k < s.len() {
            lemma_offset_drop_first(s, k as int + 1);
        }
    }
}

/// Any index satisfying the characterisation of `chars_within` is `chars_within`.
pub proof fn lemma_chars_within_unique(s: Seq<char>, budget: int, k: int)
    requires
        budget >= 0,
        0 <= k <= s.len(),
        byte_offset(s, k) <= budget,
        k < s.len() ==> byte_offset(s, k + 1) > budget,
    ensures
        k == chars_within(s, budget),
{
    lemma_chars_within(s, budget);
    let m = chars_within(s, budget) as int;
    if m < k {
        lemma_offset_monotone(s, m + 1, k);
    } else if k < m {
        lemma_offset_monotone(s, k + 1, m);
    }
}

/// A boundary is the offset of exactly one character index.
pub proof fn lemma_boundary_index(s: Seq<char>, j: int, k: int)
    requires
        0 <= j <= s.len(),
        0 <= k <= s.len(),
        byte_offset(s, j) == byte_offset(s, k),
    ensures
        j == k,
{
    if j < k {
        lemma_offset_strictly_increasing(s, j, k);
    } else if k < j {
        lemma_offset_strictly_increasing(s, k, j);
    }
}

/// `floor_index` and `ceil_index` pick the nearest boundaries below and above.
pub proof fn lemma_floor_ceil(s: Seq<char>, i: int)
    requires
        0 <= i <= byte_len(s),
    ensures
        floor_index(s, i) <= ceil_index(s, i) <= s.len(),
        byte_offset(s, floor_index(s, i) as int) <= i <= byte_offset(s, ceil_index(s, i) as int),
        is_boundary(s, i) ==> floor_index(s, i) == ceil_index(s, i) && byte_offset(
            s,
            floor_index(s, i) as int,
        ) == i,
{
    lemma_chars_within(s, i);
    lemma_offset_zero_full(s);
    let k = floor_index(s, i) as int;
    if byte_offset(s, k) < i {
        assert(k < s.len());
    }
    if is_boundary(s, i) {
        let j = choose|j: int| 0 <= j <= s.len() && #[trigger] byte_offset(s, j) == i;
        if j < s.len() {
            lemma_offset_strictly_increasing(s, j, j + 1);
        }
        lemma_chars_within_unique(s, i, j);
    }
}

pub proof fn lemma_leading_white_facts(s: Seq<char>)
    ensures
        leading_white(s) <= s.len(),
        forall|m: int| 0 <= m < leading_white(s) ==> is_white_space(#[trigger] s[m]),
        leading_white(s) < s.len() ==> !is_white_space(s[leading_white(s) as int]),
    decreases s.len(),
{
    if s.len() > 0 && is_white_space(s[0]) {
        lemma_leading_white_facts(s.drop_first());
        assert forall|m: int| 0 <= m < leading_white(s) implies is_white_space(#[trigger] s[m]) by {
            if m > 0 {
                assert(s[m] == s.drop_first()[m - 1]);
            }
        }
    }
}

pub proof fn lemma_trailing_white_facts(s: Seq<char>)
    ensures
        trailing_white(s) <= s.len(),
        forall|m: int|
            s.len() - trailing_white(s) <= m < s.len() ==> is_white_space(#[trigger] s[m]),
        trailing_white(s) < s.len() ==> !is_white_space(s[s.len() - trailing_white(s) - 1]),
    decreases s.len(),
{
    if s.len() > 0 && is_white_space(s.last()) {
        lemma_trailing_white_facts(s.drop_last());
        assert forall|m: int| s.len() - trailing_white(s) <= m < s.len() implies is_white_space(
            #[trigger] s[m],
        ) by {
            if m < s.len() - 1 {
                assert(s[m] == s.drop_last()[m]);
            }
        }
    }
}

/// Trimmed text neither starts nor ends with white space.
pub proof fn lemma_trim_no_outer_white(s: Seq<char>)
    ensures
        trim(s).len() > 0 ==> !is_white_space(trim(s)[0]) && !is_white_space(trim(s).last()),
        trim(s) == s.subrange(
            leading_white(s) as int,
            s.len() - trailing_white(s.skip(leading_white(s) as int)),
        ),
{
    lemma_leading_white_facts(s);
    let l = leading_white(s) as int;
    let t = s.skip(l);
    lemma_trailing_white_facts(t);
    let r = trim(s);
    if r.len() > 0 {
        assert(r[0] == t[0]);
        assert(t[0] == s[l]);
        assert(r.last() == t[t.len() - trailing_white(t) - 1]);
    }
    assert(r =~= s.subrange(l, s.len() - trailing_white(t)));
}

// ---------------------------------------------------------------------------
// Trusted std items
// ---------------------------------------------------------------------------

/// `String::push` appends the given `char` at the end of the string (std documents
/// exactly this), so the string's characters grow by that one `char`.
pub assume_specification[ String::push ](string: &mut String, ch: char)
    ensures
        final(string)@ == old(string)@.push(ch),
;

/// What `str::to_lowercase` gives: each character replaced by its Unicode lowercase
/// mapping. The mapping is Unicode's table and is not restated here.
pub uninterp spec fn lowercase(s: Seq<char>) -> Seq<char>;

/// `str::to_lowercase` returns the lowercase mapping of the string; its characters are
/// the named result for the argument's characters.
pub assume_specification[ str::to_lowercase ](s: &str) -> (res: String)
    ensures
        res@ == lowercase(s@),
;

// ---------------------------------------------------------------------------
// Executable text operations
// ---------------------------------------------------------------------------

/// Bytes that the UTF-8 encoding of `c` takes.
pub fn char_width_of(c: char) -> (w: usize)
    ensures
        w == char_width(c),
{
    let u = c as u32;
    if u < 0x80 {
        1
    } else if u < 0x800 {
        2
    } else if u < 0x10000 {
        3
    } else {
        4
    }
}

/// The characters of `s`, in order.
pub fn chars_of(s: &str) -> (v: Vec<char>)
    ensures
        v@ == s@,
{
    let mut v: Vec<char> = Vec::new();
    for c in it: s.chars()
        invariant
            v@ == it.seq().take(it.index() as int),
    {
        v.push(c);
    }
    v
}

/// The string made of `chars[lo..hi]`.
pub fn string_of_range(chars: &Vec<char>, lo: usize, hi: usize) -> (s: String)
    requires
        lo <= hi <= chars.len(),
    ensures
        s@ == chars@.subrange(lo as int, hi as int),
{
    let mut s = String::new();
    let mut i = lo;
    while i < hi
        invariant
            lo <= i <= hi <= chars.len(),
            s@ == chars@.subrange(lo as int, i as int),
        decreases hi - i,
    {
        s.push(chars[i]);
        i = i + 1;
        assert(s@ =~= chars@.subrange(lo as int, i as int));
    }
    s
}

/// The string made of all of `chars`.
pub fn string_of(chars: &Vec<char>) -> (s: String)
    ensures
        s@ == chars@,
{
    let s = string_of_range(chars, 0, chars.len());
    assert(chars@.subrange(0, chars@.len() as int) =~= chars@);
    s
}

/// Number of leading characters of `chars` whose encoding fits in `budget` bytes.
pub fn count_chars_within(chars: &Vec<char>, budget: usize) -> (k: usize)
    ensures
        k == chars_within(chars@, budget as int),
{
    let ghost s = chars@;
    let mut k: usize = 0;
    let mut rem: usize = budget;
    proof {
        lemma_offset_zero_full(s);
    }
    while k < chars.len() && char_width_of(chars[k]) <= rem
        invariant
            s == chars@,
            0 <= k <= s.len(),
            byte_offset(s, k as int) + rem == budget,
        decreases s.len() - k,
    {
        proof {
            lemma_offset_step(s, k as int);
        }
        rem = rem - char_width_of(chars[k]);
        k = k + 1;
    }
    proof {
        if k < s.len() {
            lemma_offset_step(s, k as int);
        }
        lemma_chars_within_unique(s, budget as int, k as int);
    }
    k
}

/// Total bytes of the UTF-8 encoding of `chars`, when that is at most `limit`.
pub fn byte_len_up_to(chars: &Vec<char>, limit: usize) -> (r: Option<usize>)
    ensures
        match r {
            Some(n) => n == byte_len(chars@) && n <= limit,
            None => byte_len(chars@) > limit,
        },
{
    let k = count_chars_within(chars, limit);
    proof {
        lemma_chars_within(chars@, limit as int);
        lemma_offset_zero_full(chars@);
    }
    if k == chars.len() {
        let mut rem: usize = limit;
        let mut i: usize = 0;
        while i < k
            invariant
                k == chars.len(),
                i <= k,
                byte_offset(chars@, i as int) + rem == limit,
                byte_offset(chars@, k as int) <= limit,
            decreases k - i,
        {
            proof {
                lemma_offset_step(chars@, i as int);
                lemma_offset_monotone(chars@, i + 1, k as int);
            }
            rem = rem - char_width_of(chars[i]);
            i = i + 1;
        }
        Some(limit - rem)
    } else {
        proof {
            lemma_offset_monotone(chars@, k + 1, chars@.len() as int);
        }
        None
    }
}

/// Whether byte offset `index` of `text` falls between two characters (or at an end),
/// as `str::is_char_boundary` answers.
pub fn is_char_boundary(text: &str, index: usize) -> (b: bool)
    ensures
        b == is_boundary(text@, index as int),
{
    let chars = chars_of(text);
    let k = count_chars_within(&chars, index);
    proof {
        lemma_chars_within(text@, index as int);
    }
    let b = boundary_at(&chars, k, index);
    proof {
        if is_boundary(text@, index as int) {
            lemma_floor_ceil_any(text@, index as int);
        }
    }
    b
}

proof fn lemma_floor_ceil_any(s: Seq<char>, i: int)
    requires
        i >= 0,
        is_boundary(s, i),
    ensures
        byte_offset(s, chars_within(s, i) as int) == i,
{
    let j = choose|j: int| 0 <= j <= s.len() && #[trigger] byte_offset(s, j) == i;
    if j < s.len() {
        lemma_offset_strictly_increasing(s, j, j + 1);
    }
    lemma_chars_within_unique(s, i, j);
}

/// Whether the offset of character `k` is exactly `index`.
fn boundary_at(chars: &Vec<char>, k: usize, index: usize) -> (b: bool)
    requires
        k <= chars.len(),
        byte_offset(chars@, k as int) <= index,
    ensures
        b == (byte_offset(chars@, k as int) == index),
        b ==> is_boundary(chars@, index as int),
{
    let mut rem: usize = index;
    let mut i: usize = 0;
    proof {
        lemma_offset_zero_full(chars@);
    }
    while i < k
        invariant
            k <= chars.len(),
            i <= k,
            byte_offset(chars@, i as int) + rem == index,
            byte_offset(chars@, k as int) <= index,
        decreases k - i,
    {
        proof {
            lemma_offset_step(chars@, i as int);
            lemma_offset_monotone(chars@, i + 1, k as int);
        }
        rem = rem - char_width_of(chars[i]);
        i = i + 1;
    }
    rem == 0
}

/// Whether `needle` occurs in `hay` at position `i`.
fn occurs_at_exec(hay: &Vec<char>, needle: &Vec<char>, i: usize) -> (b: bool)
    ensures
        b == occurs_at(hay@, needle@, i as int),
{
    if i > hay.len() || needle.len() > hay.len() - i {
        return false;
    }
    let mut j: usize = 0;
    while j < needle.len()
        invariant
            i + needle.len() <= hay.len(),
            j <= needle.len(),
            forall|m: int| 0 <= m < j ==> hay@[i + m] == needle@[m],
        decreases needle.len() - j,
    {
        if hay[i + j] != needle[j] {
            assert(hay@.subrange(i as int, i + needle.len())[j as int] != needle@[j as int]);
            return false;
        }
        j = j + 1;
    }
    assert(hay@.subrange(i as int, i + needle@.len()) =~= needle@);
    true
}

/// Whether `needle` occurs anywhere in `hay`.
pub fn contains_chars(hay: &Vec<char>, needle: &Vec<char>) -> (b: bool)
    ensures
        b == contains(hay@, needle@),
{
    if needle.len() > hay.len() {
        assert forall|i: int| !occurs_at(hay@, needle@, i) by {}
        return false;
    }
    let limit = hay.len() - needle.len();
    let mut i: usize = 0;
    loop
        invariant
            needle.len() <= hay.len(),
            limit == hay.len() - needle.len(),
            i <= limit,
            forall|m: int| 0 <= m < i ==> !#[trigger] occurs_at(hay@, needle@, m),
        decreases limit - i,
    {
        if occurs_at_exec(hay, needle, i) {
            return true;
        }
        if i == limit {
            assert forall|m: int| !#[trigger] occurs_at(hay@, needle@, m) by {
                if m == i {
                }
            }
            return false;
        }
        i = i + 1;
    }
}

/// Whether `needle` occurs in `hay` (what `str::contains` answers for a string pattern).
pub fn str_contains(hay: &str, needle: &str) -> (b: bool)
    ensures
        b == contains(hay@, needle@),
{
    let h = chars_of(hay);
    let n = chars_of(needle);
    contains_chars(&h, &n)
}

/// `s` with each non-overlapping occurrence of `from` replaced by `to`.
pub fn replace_literal_chars(s: &Vec<char>, from: &Vec<char>, to: &Vec<char>) -> (r: Vec<char>)
    requires
        from.len() > 0,
    ensures
        r@ == replace_literal(s@, from@, to@),
{
    let mut out: Vec<char> = Vec::new();
    let mut i: usize = 0;
    assert(s@.skip(0) =~= s@);
    assert(out@ + replace_literal(s@, from@, to@) =~= replace_literal(s@, from@, to@));
    while i < s.len()
        invariant
            from.len() > 0,
            i <= s.len(),
            out@ + replace_literal(s@.skip(i as int), from@, to@) == replace_literal(
                s@,
                from@,
                to@,
            ),
        decreases s.len() - i,
    {
        let ghost rest = s@.skip(i as int);
        if occurs_at_exec(s, from, i) {
            proof {
                assert(rest.take(from@.len() as int) =~= s@.subrange(i as int, i + from@.len()));
                assert(rest.skip(from@.len() as int) =~= s@.skip(i + from@.len()));
            }
            let mut j: usize = 0;
            let ghost before = out@;
            while j < to.len()
                invariant
                    j <= to.len(),
                    out@ == before + to@.take(j as int),
                decreases to.len() - j,
            {
                out.push(to[j]);
                j = j + 1;
                assert(out@ =~= before + to@.take(j as int));
            }
            assert(to@.take(to@.len() as int) =~= to@);
            assert(before + (to@ + replace_literal(s@.skip(i + from@.len()), from@, to@)) =~= (
            before + to@) + replace_literal(s@.skip(i + from@.len()), from@, to@));
            i = i + from.len();
        } else {
            proof {
                if rest.len() >= from@.len() {
                    assert(rest.take(from@.len() as int) =~= s@.subrange(
                        i as int,
                        i + from@.len(),
                    ));
                }
                assert(rest.drop_first() =~= s@.skip(i + 1));
            }
            let ghost before = out@;
            out.push(s[i]);
            proof {
                if rest.len() < from@.len() {
                    reveal_with_fuel(replace_literal, 2);
                }
            }
            assert(before + (seq![s@[i as int]] + replace_literal(s@.skip(i + 1), from@, to@))
                =~= out@ + replace_literal(s@.skip(i + 1), from@, to@));
            i = i + 1;
        }
    }
    assert(s@.skip(i as int) =~= Seq::<char>::empty());
    assert(out@ + Seq::<char>::empty() =~= out@);
    out
}

/// Whether `c` has the Unicode `White_Space` property.
pub fn is_white_space_char(c: char) -> (b: bool)
    ensures
        b == is_white_space(c),
{
    let u = c as u32;
    (0x09 <= u && u <= 0x0d) || u == 0x20 || u == 0x85 || u == 0xa0 || u == 0x1680 || (0x2000 <= u
        && u <= 0x200a) || u == 0x2028 || u == 0x2029 || u == 0x202f || u == 0x205f || u == 0x3000
}

proof fn lemma_leading_white(s: Seq<char>, k: int)
    requires
        0 <= k <= s.len(),
        forall|m: int| 0 <= m < k ==> is_white_space(#[trigger] s[m]),
        k < s.len() ==> !is_white_space(s[k]),
    ensures
        leading_white(s) == k,
    decreases k,
{
    if k > 0 {
        lemma_leading_white(s.drop_first(), k - 1);
    }
}

proof fn lemma_trailing_white(s: Seq<char>, k: int)
    requires
        0 <= k <= s.len(),
        forall|m: int| s.len() - k <= m < s.len() ==> is_white_space(#[trigger] s[m]),
        k < s.len() ==> !is_white_space(s[s.len() - k - 1]),
    ensures
        trailing_white(s) == k,
    decreases k,
{
    if k > 0 {
        lemma_trailing_white(s.drop_last(), k - 1);
    }
}

/// `chars` without leading and trailing white space.
pub fn trim_chars(chars: &Vec<char>) -> (r: Vec<char>)
    ensures
        r@ == trim(chars@),
{
    let mut lo: usize = 0;
    while lo < chars.len() && is_white_space_char(chars[lo])
        invariant
            lo <= chars.len(),
            forall|m: int| 0 <= m < lo ==> is_white_space(#[trigger] chars@[m]),
        decreases chars.len() - lo,
    {
        lo = lo + 1;
    }
    proof {
        lemma_leading_white(chars@, lo as int);
    }
    let ghost t = chars@.skip(lo as int);
    let mut hi: usize = chars.len();
    while hi > lo && is_white_space_char(chars[hi - 1])
        invariant
            lo <= hi <= chars.len(),
            t == chars@.skip(lo as int),
            forall|m: int| hi <= m < chars.len() ==> is_white_space(#[trigger] chars@[m]),
        decreases hi,
    {
        hi = hi - 1;
    }
    proof {
        assert forall|m: int| t.len() - (chars.len() - hi) <= m < t.len() implies is_white_space(
            #[trigger] t[m],
        ) by {
            assert(t[m] == chars@[lo + m]);
        }
        if hi > lo {
            assert(t[t.len() - (chars.len() - hi) - 1] == chars@[hi - 1]);
        }
        lemma_trailing_white(t, chars.len() - hi);
    }
    let mut r: Vec<char> = Vec::new();
    let mut i = lo;
    while i < hi
        invariant
            lo <= i <= hi <= chars.len(),
            r@ == chars@.subrange(lo as int, i as int),
        decreases hi - i,
    {
        r.push(chars[i]);
        i = i + 1;
        assert(r@ =~= chars@.subrange(lo as int, i as int));
    }
    assert(t.take(t.len() - trailing_white(t)) =~= chars@.subrange(lo as int, hi as int));
    r
}

/// Index of the last occurrence of `c` in `chars[..len]`.
pub fn last_index_in(chars: &Vec<char>, len: usize, c: char) -> (r: Option<usize>)
    requires
        len <= chars.len(),
    ensures
        match r {
            Some(j) => last_index_of(chars@.take(len as int), c) == Some(j as int) && j < len,
            None => last_index_of(chars@.take(len as int), c) is None,
        },
{
    let mut i = len;
    while i > 0
        invariant
            i <= len <= chars.len(),
            last_index_of(chars@.take(len as int), c) == last_index_of(chars@.take(i as int), c),
        decreases i,
    {
        assert(chars@.take(i as int).drop_last() =~= chars@.take(i - 1));
        if chars[i - 1] == c {
            return Some(i - 1);
        }
        i = i - 1;
    }
    None
}

/// Whether two strings hold the same characters.
pub fn same_text(a: &str, b: &str) -> (r: bool)
    ensures
        r == (a@ == b@),
{
    let x = chars_of(a);
    let y = chars_of(b);
    if x.len() != y.len() {
        return false;
    }
    let mut i: usize = 0;
    while i < x.len()
        invariant
            x@ == a@,
            y@ == b@,
            x.len() == y.len(),
            i <= x.len(),
            forall|m: int| 0 <= m < i ==> x@[m] == y@[m],
        decreases x.len() - i,
    {
        if x[i] != y[i] {
            assert(x@[i as int] != y@[i as int]);
            return false;
        }
        i = i + 1;
    }
    assert(x@ =~= y@);
    true
}

/// The characters of a list of strings.
pub open spec fn strings_view(v: Seq<String>) -> Seq<Seq<char>> {
    v.map_values(|s: String| s@)
}

/// Whether `list` holds a string with the characters of `s`.
pub fn holds_text(list: &Vec<String>, s: &str) -> (r: bool)
    ensures
        r == strings_view(list@).contains(s@),
{
    let mut i: usize = 0;
    while i < list.len()
        invariant
            i <= list.len(),
            forall|m: int| 0 <= m < i ==> list@[m]@ != s@,
        decreases list.len() - i,
    {
        if same_text(list[i].as_str(), s) {
            assert(strings_view(list@)[i as int] == s@);
            return true;
        }
        i = i + 1;
    }
    assert forall|m: int| 0 <= m < strings_view(list@).len() implies strings_view(list@)[m] != s@ by {
        assert(strings_view(list@)[m] == list@[m]@);
    }
    false
}

/// Character index of the smallest boundary at or above byte offset `i`.
pub fn ceil_char_index(chars: &Vec<char>, i: usize) -> (k: usize)
    requires
        i <= byte_len(chars@),
    ensures
        k == ceil_index(chars@, i as int),
        k <= chars.len(),
{
    let k = count_chars_within(chars, i);
    proof {
        lemma_chars_within(chars@, i as int);
        lemma_floor_ceil(chars@, i as int);
    }
    if boundary_at(chars, k, i) {
        k
    } else {
        k + 1
    }
}

/// Appends `chars` to `s`.
pub fn push_all(s: &mut String, chars: &Vec<char>)
    ensures
        final(s)@ == old(s)@ + chars@,
{
    let mut i: usize = 0;
    while i < chars.len()
        invariant
            i <= chars.len(),
            s@ == old(s)@ + chars@.take(i as int),
        decreases chars.len() - i,
    {
        s.push(chars[i]);
        i = i + 1;
        assert(s@ =~= old(s)@ + chars@.take(i as int));
    }
    assert(chars@.take(chars.len() as int) =~= chars@);
}

/// Appends the characters of `t` to `s`.
pub fn append_text(s: &mut String, t: &str)
    ensures
        final(s)@ == old(s)@ + t@,
{
    let v = chars_of(t);
    push_all(s, &v);
}

/// A template filled in: `pieces[0] + values[0] + pieces[1] + ... + values[n-1] + pieces[n]`.
pub open spec fn filled(pieces: Seq<Seq<char>>, values: Seq<Seq<char>>) -> Seq<char>
    decreases values.len(),
{
    if values.len() == 0 || pieces.len() != values.len() + 1 {
        if pieces.len() > 0 {
            pieces[0]
        } else {
            Seq::empty()
        }
    } else {
        filled(pieces.drop_last(), values.drop_last()) + values.last() + pieces.last()
    }
}

pub open spec fn texts_view(v: Seq<&str>) -> Seq<Seq<char>> {
    v.map_values(|s: &str| s@)
}

/// Fills a template whose fixed parts are `pieces` with `values`, one between each two pieces.
pub fn fill_template(pieces: &Vec<&str>, values: &Vec<String>) -> (r: String)
    requires
        pieces.len() == values.len() + 1,
    ensures
        r@ == filled(texts_view(pieces@), strings_view(values@)),
{
    let ghost ps = texts_view(pieces@);
    let ghost vs = strings_view(values@);
    let mut r = String::new();
    append_text(&mut r, pieces[0]);
    assert(r@ =~= ps[0]);
    let mut i: usize = 0;
    while i < values.len()
        invariant
            pieces.len() == values.len() + 1,
            ps == texts_view(pieces@),
            vs == strings_view(values@),
            i <= values.len(),
            r@ == filled(ps.take(i + 1), vs.take(i as int)),
        decreases values.len() - i,
    {
        append_text(&mut r, values[i].as_str());
        append_text(&mut r, pieces[i + 1]);
        proof {
            let p2 = ps.take(i + 2);
            let v2 = vs.take(i + 1);
            assert(p2.drop_last() =~= ps.take(i + 1));
            assert(v2.drop_last() =~= vs.take(i as int));
            assert(v2.last() == values@[i as int]@);
            assert(p2.last() == pieces@[i + 1]@);
        }
        i = i + 1;
    }
    assert(ps.take(values.len() + 1) =~= ps);
    assert(vs.take(values.len() as int) =~= vs);
    r
}

} // verus!
