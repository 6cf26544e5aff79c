//! Text primitives over sequences of characters: the white space and ASCII
//! case rules of `str::trim` and `str::eq_ignore_ascii_case`, splitting on a
//! set of separators, and the conversions between `String` and `Vec<char>`.
use vstd::prelude::*;
use vstd::string::*;

verus! {

/// The Unicode `White_Space` property, the set that `char::is_whitespace`
/// and hence `str::trim` use.
pub open spec fn is_white_space(c: char) -> bool {
    ||| ('\t' <= c && c <= '\r')
    ||| c == ' '
    ||| c == '\u{85}'
    ||| c == '\u{a0}'
    ||| c == '\u{1680}'
    ||| ('\u{2000}' <= c && c <= '\u{200a}')
    ||| c == '\u{2028}'
    ||| c == '\u{2029}'
    ||| c == '\u{202f}'
    ||| c == '\u{205f}'
    ||| c == '\u{3000}'
}

/// The characters of an optional string.
pub open spec fn opt_string_view(o: Option<String>) -> Option<Seq<char>> {
    match o {
        Some(s) => Some(s@),
        None => None,
    }
}

/// `s` without its leading white space.
pub open spec fn trim_start(s: Seq<char>) -> Seq<char>
    decreases s.len(),
{
    if s.len() > 0 && is_white_space(s[0]) {
        trim_start(s.drop_first())
    } else {
        s
    }
}

/// `s` without its trailing white space.
pub open spec fn trim_end(s: Seq<char>) -> Seq<char>
    decreases s.len(),
{
    if s.len() > 0 && is_white_space(s.last()) {
        trim_end(s.drop_last())
    } else {
        s
    }
}

/// `s` without leading and trailing white space, as `str::trim` gives it.
pub open spec fn trim(s: Seq<char>) -> Seq<char> {
    trim_end(trim_start(s))
}

/// The code of `c` with ASCII upper-case letters mapped to lower case.
pub open spec fn ascii_fold(c: char) -> u32 {
    if 'A' <= c && c <= 'Z' {
        (c as u32 + 32) as u32
    } else {
        c as u32
    }
}

/// Equality up to ASCII case, as `str::eq_ignore_ascii_case` decides it.
pub open spec fn eq_ignore_ascii_case(a: Seq<char>, b: Seq<char>) -> bool {
    &&& a.len() == b.len()
    &&& forall|i: int| 0 <= i < a.len() ==> ascii_fold(#[trigger] a[i]) == ascii_fold(b[i])
}

/// The pieces of `s` between the characters of `seps`, as `str::split` with a
/// set of separator characters gives them: always at least one piece.
pub open spec fn split_on(s: Seq<char>, seps: Seq<char>) -> Seq<Seq<char>>
    decreases s.len(),
{
    if s.len() == 0 {
        seq![Seq::<char>::empty()]
    } else {
        let before = split_on(s.drop_last(), seps);
        if seps.contains(s.last()) {
            before.push(Seq::<char>::empty())
        } else {
            before.update(before.len() - 1, before.last().push(s.last()))
        }
    }
}

pub proof fn lemma_split_on_nonempty(s: Seq<char>, seps: Seq<char>)
    ensures
        split_on(s, seps).len() >= 1,
    decreases s.len(),
{
    if s.len() > 0 {
        lemma_split_on_nonempty(s.drop_last(), seps);
    }
}

pub proof fn lemma_eq_ignore_ascii_case_equivalence(a: Seq<char>, b: Seq<char>, c: Seq<char>)
    ensures
        eq_ignore_ascii_case(a, a),
        eq_ignore_ascii_case(a, b) ==> eq_ignore_ascii_case(b, a),
        eq_ignore_ascii_case(a, b) && eq_ignore_ascii_case(b, c) ==> eq_ignore_ascii_case(a, c),
{
    if eq_ignore_ascii_case(a, b) && eq_ignore_ascii_case(b, c) {
        assert forall|i: int| 0 <= i < a.len() implies ascii_fold(#[trigger] a[i]) == ascii_fold(
            c[i],
        ) by {
            assert(ascii_fold(a[i]) == ascii_fold(b[i]));
        }
    }
    if eq_ignore_ascii_case(a, b) {
        assert forall|i: int| 0 <= i < b.len() implies ascii_fold(#[trigger] b[i]) == ascii_fold(
            a[i],
        ) by {
            assert(ascii_fold(a[i]) == ascii_fold(b[i]));
        }
    }
}

proof fn lemma_trim_start_first(s: Seq<char>)
    ensures
        trim_start(s).len() > 0 ==> !is_white_space(trim_start(s)[0]),
    decreases s.len(),
{
    if s.len() > 0 && is_white_space(s[0]) {
        lemma_trim_start_first(s.drop_first());
    }
}

proof fn lemma_trim_end_prefix(s: Seq<char>)
    ensures
        trim_end(s).len() <= s.len(),
        trim_end(s) == s.take(trim_end(s).len() as int),
        trim_end(s).len() > 0 ==> !is_white_space(trim_end(s).last()),
    decreases s.len(),
{
    if s.len() > 0 && is_white_space(s.last()) {
        lemma_trim_end_prefix(s.drop_last());
        assert(s.drop_last().take(trim_end(s).len() as int) =~= s.take(trim_end(s).len() as int));
    } else {
        assert(s.take(s.len() as int) =~= s);
    }
}

/// A trimmed text has no white space at either end, so trimming it again
/// changes nothing.
pub proof fn lemma_trim_idempotent(s: Seq<char>)
    ensures
        trim(s).len() > 0 ==> !is_white_space(trim(s)[0]) && !is_white_space(trim(s).last()),
        trim(trim(s)) == trim(s),
{
    let t = trim_start(s);
    let u = trim_end(t);
    lemma_trim_start_first(s);
    lemma_trim_end_prefix(t);
    if u.len() > 0 {
        assert(u[0] == t[0]);
        assert(trim_start(u) == u);
        assert(trim_end(u) == u);
    } else {
        assert(trim_start(u) == u);
        assert(trim_end(u) == u);
    }
}

/// `String::push` of std: the contract claims that afterwards `s` holds its
/// former characters followed by `c`.
#[verifier::external_body]
fn push_char(s: &mut String, c: char)
    ensures
        final(s)@ == old(s)@.push(c),
{
    s.push(c);
}

/// The characters of `s`, in order.
pub fn chars_of(s: &str) -> (res: Vec<char>)
    ensures
        res@ == s@,
{
    let n = s.unicode_len();
    let mut res: Vec<char> = Vec::new();
    let mut i: usize = 0;
    while i < n
        invariant
            n == s@.len(),
            i <= n,
            res@ == s@.take(i as int),
        decreases n - i,
    {
        let c = s.get_char(i);
        res.push(c);
        assert(s@.take(i as int + 1) =~= s@.take(i as int).push(c));
        i = i + 1;
    }
    assert(s@.take(n as int) =~= s@);
    res
}

/// The string made of the characters of `v`, in order.
pub fn string_from_chars(v: &Vec<char>) -> (res: String)
    ensures
        res@ == v@,
{
    let mut res = String::new();
    let mut i: usize = 0;
    while i < v.len()
        invariant
            i <= v.len(),
            res@ == v@.take(i as int),
        decreases v.len() - i,
    {
        push_char(&mut res, v[i]);
        assert(v@.take(i as int + 1) =~= v@.take(i as int).push(v@[i as int]));
        i = i + 1;
    }
    assert(v@.take(v.len() as int) =~= v@);
    res
}

/// Whether `c` has the Unicode `White_Space` property (`char::is_whitespace`).
pub fn is_white_space_char(c: char) -> (res: bool)
    ensures
        res == is_white_space(c),
{
    ('\t' <= c && c <= '\r') || c == ' ' || c == '\u{85}' || c == '\u{a0}' || c == '\u{1680}'
        || ('\u{2000}' <= c && c <= '\u{200a}') || c == '\u{2028}' || c == '\u{2029}' || c
        == '\u{202f}' || c == '\u{205f}' || c == '\u{3000}'
}

proof fn lemma_trim_start_skip(s: Seq<char>, i: int)
    requires
        0 <= i < s.len(),
        is_white_space(s[i]),
    ensures
        trim_start(s.subrange(i, s.len() as int)) == trim_start(s.subrange(i + 1, s.len() as int)),
{
    assert(s.subrange(i, s.len() as int).drop_first() =~= s.subrange(i + 1, s.len() as int));
}

proof fn lemma_trim_end_skip(s: Seq<char>, j: int)
    requires
        0 < j <= s.len(),
        is_white_space(s[j - 1]),
    ensures
        trim_end(s.subrange(0, j)) == trim_end(s.subrange(0, j - 1)),
{
    assert(s.subrange(0, j).drop_last() =~= s.subrange(0, j - 1));
}

/// `s` without leading and trailing white space (`str::trim`).
pub fn trim_chars(s: &Vec<char>) -> (res: Vec<char>)
    ensures
        res@ == trim(s@),
{
    let n = s.len();
    let mut i: usize = 0;
    assert(s@.subrange(0, n as int) =~= s@);
    while i < n && is_white_space_char(s[i])
        invariant
            i <= n,
            n == s@.len(),
            trim_start(s@) == trim_start(s@.subrange(i as int, n as int)),
        decreases n - i,
    {
        proof {
            lemma_trim_start_skip(s@, i as int);
        }
        i = i + 1;
    }
    let ghost rest = s@.subrange(i as int, n as int);
    assert(trim_start(rest) == rest);
    let mut j: usize = n;
    assert(rest.subrange(0, rest.len() as int) =~= rest);
    while j > i && is_white_space_char(s[j - 1])
        invariant
            i <= j <= n,
            n == s@.len(),
            rest == s@.subrange(i as int, n as int),
            trim_end(rest) == trim_end(rest.subrange(0, j - i)),
        decreases j - i,
    {
        proof {
            lemma_trim_end_skip(rest, j - i);
        }
        j = j - 1;
    }
    let ghost kept = rest.subrange(0, j - i);
    assert(trim_end(kept) == kept);
    let mut res: Vec<char> = Vec::new();
    let mut k: usize = i;
    while k < j
        invariant
            i <= k <= j <= n,
            n == s@.len(),
            res@ == s@.subrange(i as int, k as int),
        decreases j - k,
    {
        res.push(s[k]);
        assert(s@.subrange(i as int, k + 1) =~= s@.subrange(i as int, k as int).push(s@[k as int]));
        k = k + 1;
    }
    assert(kept =~= s@.subrange(i as int, j as int));
    res
}

/// Whether `c` and `d` are equal up to ASCII case.
pub fn eq_ignore_ascii_case_char(c: char, d: char) -> (res: bool)
    ensures
        res == (ascii_fold(c) == ascii_fold(d)),
{
    let fc: u32 = if 'A' <= c && c <= 'Z' {
        c as u32 + 32
    } else {
        c as u32
    };
    let fd: u32 = if 'A' <= d && d <= 'Z' {
        d as u32 + 32
    } else {
        d as u32
    };
    fc == fd
}

/// Whether `a` and `b` are equal up to ASCII case (`str::eq_ignore_ascii_case`).
pub fn eq_ignore_ascii_case_chars(a: &Vec<char>, b: &Vec<char>) -> (res: bool)
    ensures
        res == eq_ignore_ascii_case(a@, b@),
{
    if a.len() != b.len() {
        return false;
    }
    let mut i: usize = 0;
    while i < a.len()
        invariant
            a.len() == b.len(),
            i <= a.len(),
            forall|k: int| 0 <= k < i ==> ascii_fold(#[trigger] a@[k]) == ascii_fold(b@[k]),
        decreases a.len() - i,
    {
        if !eq_ignore_ascii_case_char(a[i], b[i]) {
            return false;
        }
        i = i + 1;
    }
    true
}

/// Whether `a` and `b` hold the same characters.
pub fn chars_equal(a: &Vec<char>, b: &Vec<char>) -> (res: bool)
    ensures
        res == (a@ == b@),
{
    if a.len() != b.len() {
        return false;
    }
    let mut i: usize = 0;
    while i < a.len()
        invariant
            a.len() == b.len(),
            i <= a.len(),
            forall|k: int| 0 <= k < i ==> #[trigger] a@[k] == b@[k],
        decreases a.len() - i,
    {
        if a[i] != b[i] {
            return false;
        }
        i = i + 1;
    }
    assert(a@ =~= b@);
    true
}

/// Whether `c` is one of `seps`.
fn is_one_of(c: char, seps: &Vec<char>) -> (res: bool)
    ensures
        res == seps@.contains(c),
{
    let mut i: usize = 0;
    while i < seps.len()
        invariant
            i <= seps.len(),
            forall|k: int| 0 <= k < i ==> seps@[k] != c,
        decreases seps.len() - i,
    {
        if seps[i] == c {
            return true;
        }
        i = i + 1;
    }
    false
}

/// The pieces of `s` between the characters of `seps` (`str::split`).
pub fn split_chars(s: &Vec<char>, seps: &Vec<char>) -> (res: Vec<Vec<char>>)
    ensures
        res@.len() == split_on(s@, seps@).len(),
        forall|k: int| 0 <= k < res@.len() ==> #[trigger] res@[k]@ == split_on(s@, seps@)[k],
{
    let mut done: Vec<Vec<char>> = Vec::new();
    let mut current: Vec<char> = Vec::new();
    let mut i: usize = 0;
    while i < s.len()
        invariant
            i <= s.len(),
            done@.len() + 1 == split_on(s@.take(i as int), seps@).len(),
            forall|k: int|
                0 <= k < done@.len() ==> #[trigger] done@[k]@ == split_on(
                    s@.take(i as int),
                    seps@,
                )[k],
            current@ == split_on(s@.take(i as int), seps@).last(),
        decreases s.len() - i,
    {
        let c = s[i];
        assert(s@.take(i as int + 1).drop_last() =~= s@.take(i as int));
        if is_one_of(c, seps) {
            let piece = current;
            done.push(piece);
            current = Vec::new();
        } else {
            current.push(c);
        }
        i = i + 1;
    }
    assert(s@.take(s.len() as int) =~= s@);
    done.push(current);
    done
}

} // verus!
