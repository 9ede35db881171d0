use vstd::prelude::*;

verus! {

broadcast use vstd::string::group_string_axioms;

/// Appends `c` to `s` (std's `String::push`).
#[verifier::external_body]
pub(crate) fn push_char(s: &mut String, c: char)
    ensures
        final(s)@ == old(s)@.push(c),
{
    s.push(c);
}

/// Whether two strings hold the same characters.
pub fn str_eq(a: &str, b: &str) -> (r: bool)
    ensures
        r == (a@ == b@),
{
    a.to_owned() == b.to_owned()
}

/// The characters of `s`, in order.
pub fn chars_of(s: &str) -> (v: Vec<char>)
    ensures
        v@ == s@,
{
    let mut v: Vec<char> = Vec::new();
    for c in it: s.chars()
        invariant
            v@ == it.seq().take(it.index() as int),
    {
        v.push(c);
    }
    v
}

/// `s` cut at every occurrence of `sep`, as `str::split` with a character
/// separator cuts it: `k` separators give `k + 1` pieces, empty ones included.
pub open spec fn split_on(s: Seq<char>, sep: char) -> Seq<Seq<char>>
    decreases s.len(),
{
    if s.len() == 0 {
        seq![Seq::<char>::empty()]
    } else if s.last() == sep {
        split_on(s.drop_last(), sep).push(Seq::<char>::empty())
    } else {
        let p = split_on(s.drop_last(), sep);
        p.update(p.len() - 1, p.last().push(s.last()))
    }
}

/// Splitting always gives at least one piece.
pub proof fn lemma_split_on_len(s: Seq<char>, sep: char)
    ensures
        split_on(s, sep).len() >= 1,
    decreases s.len(),
{
    if s.len() > 0 {
        lemma_split_on_len(s.drop_last(), sep);
    }
}

/// The pieces of `s` between occurrences of `sep` (std's `str::split` with a `char`).
pub fn split_char(s: &str, sep: char) -> (pieces: Vec<String>)
    ensures
        pieces@.map_values(|p: String| p@) == split_on(s@, sep),
{
    let chars = chars_of(s);
    let n = chars.len();
    let mut pieces: Vec<String> = Vec::new();
    let mut current = String::new();
    let mut i: usize = 0;
    while i < n
        invariant
            n == chars@.len(),
            chars@ == s@,
            i <= n,
            pieces@.map_values(|p: String| p@).push(current@) == split_on(s@.take(i as int), sep),
        decreases n - i,
    {
        let c = chars[i];
        let ghost prefix = s@.take(i as int);
        assert(s@.take(i + 1).drop_last() =~= prefix);
        assert(s@.take(i + 1).last() == c);
        proof {
            lemma_split_on_len(prefix, sep);
        }
        let ghost before = pieces@.map_values(|p: String| p@);
        let ghost cur = current@;
        if c == sep {
            pieces.push(current);
            current = String::new();
            assert(pieces@.map_values(|p: String| p@) =~= before.push(cur));
        } else {
            push_char(&mut current, c);
            assert(before.push(current@) =~= before.push(cur).update(before.len() as int, cur.push(c)));
        }
        i = i + 1;
    }
    assert(s@.take(n as int) =~= s@);
    pieces.push(current);
    pieces
}

/// `s` without one trailing carriage return.
pub open spec fn strip_cr(s: Seq<char>) -> Seq<char> {
    if s.len() > 0 && s.last() == '\r' {
        s.drop_last()
    } else {
        s
    }
}

/// `s` without one trailing carriage return.
pub fn without_trailing_cr(s: &str) -> (r: String)
    ensures
        r@ == strip_cr(s@),
{
    let chars = chars_of(s);
    let n = chars.len();
    let end: usize = if n > 0 && chars[n - 1] == '\r' { n - 1 } else { n };
    let mut out = String::new();
    let mut i: usize = 0;
    while i < end
        invariant
            chars@ == s@,
            end <= chars@.len(),
            i <= end,
            out@ =~= s@.take(i as int),
        decreases end - i,
    {
        push_char(&mut out, chars[i]);
        i = i + 1;
    }
    assert(s@.take(end as int) =~= strip_cr(s@));
    out
}

} // verus!
