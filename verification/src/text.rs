//! Character-level helpers shared by the naming and version rules.
use vstd::prelude::*;

verus! {

/// The Unicode `White_Space` property, which is what `char::is_whitespace`
/// and `str::trim` go by.
pub open spec fn is_ws(c: char) -> bool {
    let u = c as u32;
    ||| (0x9 <= u && u <= 0xD)
    ||| u == 0x20
    ||| u == 0x85
    ||| u == 0xA0
    ||| u == 0x1680
    ||| (0x2000 <= u && u <= 0x200A)
    ||| u == 0x2028
    ||| u == 0x2029
    ||| u == 0x202F
    ||| u == 0x205F
    ||| u == 0x3000
}

/// Executable form of [`is_ws`].
pub fn is_whitespace(c: char) -> (r: bool)
    ensures
        r == is_ws(c),
{
    let u = c as u32;
    (0x9 <= u && u <= 0xD) || u == 0x20 || u == 0x85 || u == 0xA0 || u == 0x1680 || (0x2000
        <= u && u <= 0x200A) || u == 0x2028 || u == 0x2029 || u == 0x202F || u == 0x205F || u
        == 0x3000
}

/// Appends one character to a string (`String::push`).
#[verifier::external_body]
pub(crate) fn push_char(s: &mut String, c: char)
    ensures
        final(s)@ == old(s)@.push(c),
{
    s.push(c)
}

/// The characters of a string slice, in order.
pub fn chars_of(s: &str) -> (v: Vec<char>)
    ensures
        v@ == s@,
{
    let mut v: Vec<char> = Vec::new();
    for c in it: s.chars()
        invariant
            v@ == it.seq().take(it.index() as int),
    {
        v.push(c);
    }
    v
}

} // verus!

verus! {

/// `s` with every leading character that satisfies `p` removed.
pub open spec fn trim_start_by(s: Seq<char>, p: spec_fn(char) -> bool) -> Seq<char>
    decreases s.len(),
{
    if s.len() > 0 && p(s[0]) {
        trim_start_by(s.drop_first(), p)
    } else {
        s
    }
}

/// `s` with every trailing character that satisfies `p` removed.
pub open spec fn trim_end_by(s: Seq<char>, p: spec_fn(char) -> bool) -> Seq<char>
    decreases s.len(),
{
    if s.len() > 0 && p(s.last()) {
        trim_end_by(s.drop_last(), p)
    } else {
        s
    }
}

/// `s` with the characters that satisfy `p` removed from both ends.
pub open spec fn trim_by(s: Seq<char>, p: spec_fn(char) -> bool) -> Seq<char> {
    trim_end_by(trim_start_by(s, p), p)
}

/// What `str::trim` gives back.
pub open spec fn trim_ws(s: Seq<char>) -> Seq<char> {
    trim_by(s, |c: char| is_ws(c))
}

/// What `str::trim_matches(c)` gives back for a single character `c`.
pub open spec fn trim_char(s: Seq<char>, c: char) -> Seq<char> {
    trim_by(s, equals_char(c))
}

/// The predicate "is the character `c`".
pub open spec fn equals_char(c: char) -> spec_fn(char) -> bool {
    |x: char| x == c
}

/// Trimming the front past `i` characters that all satisfy `p`.
pub proof fn lemma_trim_start_skip(s: Seq<char>, p: spec_fn(char) -> bool, i: int)
    requires
        0 <= i <= s.len(),
        forall|k: int| 0 <= k < i ==> #[trigger] p(s[k]),
        i == s.len() || !p(s[i]),
    ensures
        trim_start_by(s, p) == s.skip(i),
    decreases i,
{
    if i == 0 {
        assert(s.skip(0) =~= s);
    } else {
        assert(p(s[0]));
        let t = s.drop_first();
        assert forall|k: int| 0 <= k < i - 1 implies #[trigger] p(t[k]) by {
            assert(t[k] == s[k + 1]);
        }
        lemma_trim_start_skip(t, p, i - 1);
        assert(t.skip(i - 1) =~= s.skip(i));
    }
}

/// Trimming the end back to `j` characters when all after them satisfy `p`.
pub proof fn lemma_trim_end_take(s: Seq<char>, p: spec_fn(char) -> bool, j: int)
    requires
        0 <= j <= s.len(),
        forall|k: int| j <= k < s.len() ==> #[trigger] p(s[k]),
        j == 0 || !p(s[j - 1]),
    ensures
        trim_end_by(s, p) == s.take(j),
    decreases s.len() - j,
{
    if j == s.len() {
        assert(s.take(j) =~= s);
    } else {
        assert(p(s.last()));
        let t = s.drop_last();
        assert forall|k: int| j <= k < t.len() implies #[trigger] p(t[k]) by {
            assert(t[k] == s[k]);
        }
        lemma_trim_end_take(t, p, j);
        assert(t.take(j) =~= s.take(j));
    }
}

/// Builds a `String` from a slice of characters.
pub fn string_from(v: &[char]) -> (s: String)
    ensures
        s@ == v@,
{
    let mut s = String::new();
    for i in 0..v.len()
        invariant
            s@ == v@.take(i as int),
    {
        push_char(&mut s, v[i]);
        assert(v@.take(i + 1) =~= v@.take(i as int).push(v@[i as int]));
    }
    assert(v@.take(v.len() as int) =~= v@);
    s
}

/// The characters of `v[lo..hi]`.
pub fn sub_chars(v: &Vec<char>, lo: usize, hi: usize) -> (r: Vec<char>)
    requires
        lo <= hi <= v.len(),
    ensures
        r@ == v@.subrange(lo as int, hi as int),
{
    let mut r: Vec<char> = Vec::new();
    let mut i = lo;
    while i < hi
        invariant
            lo <= i <= hi <= v.len(),
            r@ == v@.subrange(lo as int, i as int),
        decreases hi - i,
    {
        r.push(v[i]);
        assert(v@.subrange(lo as int, i + 1) =~= v@.subrange(lo as int, i as int).push(v@[i as int]));
        i += 1;
    }
    r
}

/// `str::trim` on a character sequence.
pub fn trim_whitespace(v: &Vec<char>) -> (r: Vec<char>)
    ensures
        r@ == trim_ws(v@),
{
    let mut lo: usize = 0;
    while lo < v.len() && is_whitespace(v[lo])
        invariant
            lo <= v.len(),
            forall|k: int| 0 <= k < lo ==> is_ws(#[trigger] v@[k]),
        decreases v.len() - lo,
    {
        lo += 1;
    }
    proof { lemma_trim_start_skip(v@, |c: char| is_ws(c), lo as int); }
    let ghost t = v@.skip(lo as int);
    let mut hi: usize = v.len();
    while hi > lo && is_whitespace(v[hi - 1])
        invariant
            lo <= hi <= v.len(),
            t == v@.skip(lo as int),
            forall|k: int| hi - lo <= k < t.len() ==> is_ws(#[trigger] t[k]),
        decreases hi,
    {
        hi -= 1;
    }
    proof {
        lemma_trim_end_take(t, |c: char| is_ws(c), hi - lo);
        assert(t.take(hi - lo) =~= v@.subrange(lo as int, hi as int));
    }
    sub_chars(v, lo, hi)
}

/// `str::trim_matches(c)` on a character sequence.
pub fn trim_matching(v: &Vec<char>, c: char) -> (r: Vec<char>)
    ensures
        r@ == trim_char(v@, c),
{
    let mut lo: usize = 0;
    while lo < v.len() && v[lo] == c
        invariant
            lo <= v.len(),
            forall|k: int| 0 <= k < lo ==> #[trigger] v@[k] == c,
        decreases v.len() - lo,
    {
        lo += 1;
    }
    proof { lemma_trim_start_skip(v@, equals_char(c), lo as int); }
    let ghost t = v@.skip(lo as int);
    let mut hi: usize = v.len();
    while hi > lo && v[hi - 1] == c
        invariant
            lo <= hi <= v.len(),
            t == v@.skip(lo as int),
            forall|k: int| hi - lo <= k < t.len() ==> #[trigger] t[k] == c,
        decreases hi,
    {
        hi -= 1;
    }
    proof {
        lemma_trim_end_take(t, equals_char(c), hi - lo);
        assert(t.take(hi - lo) =~= v@.subrange(lo as int, hi as int));
    }
    sub_chars(v, lo, hi)
}

} // verus!

verus! {

/// Lexicographic order on character sequences by code point, which is the
/// order `Ord for String` gives (UTF-8 preserves code point order).
pub open spec fn lex_lt(a: Seq<char>, b: Seq<char>) -> bool
    decreases a.len(),
{
    if a.len() == 0 {
        b.len() > 0
    } else if b.len() == 0 {
        false
    } else if a[0] != b[0] {
        (a[0] as u32) < (b[0] as u32)
    } else {
        lex_lt(a.drop_first(), b.drop_first())
    }
}

/// No sequence comes before itself.
pub proof fn lemma_lex_irreflexive(a: Seq<char>)
    ensures
        !lex_lt(a, a),
    decreases a.len(),
{
    if a.len() > 0 {
        lemma_lex_irreflexive(a.drop_first());
    }
}

/// Two sequences are not each before the other.
pub proof fn lemma_lex_asymmetric(a: Seq<char>, b: Seq<char>)
    ensures
        !(lex_lt(a, b) && lex_lt(b, a)),
    decreases a.len(),
{
    if a.len() > 0 && b.len() > 0 && a[0] == b[0] {
        lemma_lex_asymmetric(a.drop_first(), b.drop_first());
    }
}

/// Of two different sequences, one comes first.
pub proof fn lemma_lex_total(a: Seq<char>, b: Seq<char>)
    ensures
        a == b || lex_lt(a, b) || lex_lt(b, a),
    decreases a.len(),
{
    if a.len() > 0 && b.len() > 0 && a[0] == b[0] {
        lemma_lex_total(a.drop_first(), b.drop_first());
        if a.drop_first() == b.drop_first() {
            assert(a =~= seq![a[0]] + a.drop_first());
            assert(b =~= seq![b[0]] + b.drop_first());
        }
    } else if a.len() > 0 && b.len() > 0 {
        vstd::utf8::char_u32_cast(a[0], a[0] as u32);
        vstd::utf8::char_u32_cast(b[0], b[0] as u32);
    } else if a.len() == 0 && b.len() == 0 {
        assert(a =~= b);
    }
}

/// The order is transitive.
pub proof fn lemma_lex_transitive(a: Seq<char>, b: Seq<char>, c: Seq<char>)
    requires
        lex_lt(a, b),
        lex_lt(b, c),
    ensures
        lex_lt(a, c),
    decreases a.len(),
{
    if a.len() > 0 && b.len() > 0 && c.len() > 0 && a[0] == b[0] && b[0] == c[0] {
        lemma_lex_transitive(a.drop_first(), b.drop_first(), c.drop_first());
    }
}

/// `a < b` on strings held as character vectors.
pub fn lex_less(a: &Vec<char>, b: &Vec<char>) -> (r: bool)
    ensures
        r == lex_lt(a@, b@),
{
    let mut i: usize = 0;
    assert(a@.skip(0) =~= a@);
    assert(b@.skip(0) =~= b@);
    while i < a.len() && i < b.len() && a[i] == b[i]
        invariant
            i <= a.len(),
            i <= b.len(),
            lex_lt(a@, b@) == lex_lt(a@.skip(i as int), b@.skip(i as int)),
        decreases a.len() - i,
    {
        let ghost sa = a@.skip(i as int);
        let ghost sb = b@.skip(i as int);
        assert(sa.drop_first() =~= a@.skip(i + 1));
        assert(sb.drop_first() =~= b@.skip(i + 1));
        i += 1;
    }
    if i == a.len() {
        i < b.len()
    } else if i == b.len() {
        false
    } else {
        (a[i] as u32) < (b[i] as u32)
    }
}

/// Strictly increasing in [`lex_lt`]: sorted, with no element twice.
pub open spec fn strictly_sorted(s: Seq<Seq<char>>) -> bool {
    forall|i: int, j: int| 0 <= i < j < s.len() ==> lex_lt(#[trigger] s[i], #[trigger] s[j])
}

/// The distinct elements of `vs` in increasing order: what
/// `sort()` followed by `dedup()` leaves of a vector of strings.
pub open spec fn sorted_unique(vs: Seq<Seq<char>>) -> Seq<Seq<char>> {
    choose|s: Seq<Seq<char>>| strictly_sorted(s) && s.to_set() == vs.to_set()
}

/// A strictly sorted sequence holding exactly the elements of `s` is their sorted unique form.
pub proof fn lemma_strictly_sorted_unique(s: Seq<Seq<char>>, t: Seq<Seq<char>>)
    requires
        strictly_sorted(s),
        strictly_sorted(t),
        s.to_set() == t.to_set(),
    ensures
        s == t,
    decreases s.len(),
{
    if s.len() == 0 {
        if t.len() > 0 {
            assert(t.to_set().contains(t[0]));
        }
        assert(s =~= t);
    } else {
        assert(s.to_set().contains(s[0]));
        assert(t.len() > 0);
        assert(t.to_set().contains(t[0]));
        assert(s.contains(t[0]));
        assert(t.contains(s[0]));
        let k = choose|k: int| 0 <= k < t.len() && t[k] == s[0];
        let m = choose|m: int| 0 <= m < s.len() && s[m] == t[0];
        if k > 0 {
            assert(lex_lt(t[0], t[k]));
            if m > 0 {
                assert(lex_lt(s[0], s[m]));
                lemma_lex_asymmetric(s[0], t[0]);
            } else {
                lemma_lex_irreflexive(t[0]);
            }
        }
        assert(s[0] == t[0]);
        let s2 = s.drop_first();
        let t2 = t.drop_first();
        assert forall|x: Seq<char>| s2.to_set().contains(x) implies t2.to_set().contains(x) by {
            let i = choose|i: int| 0 <= i < s2.len() && s2[i] == x;
            assert(s[i + 1] == x);
            assert(lex_lt(s[0], x));
            assert(t.to_set().contains(x));
            let j = choose|j: int| 0 <= j < t.len() && t[j] == x;
            if j == 0 {
                lemma_lex_irreflexive(x);
            }
            assert(t2[j - 1] == x);
        }
        assert forall|x: Seq<char>| t2.to_set().contains(x) implies s2.to_set().contains(x) by {
            let i = choose|i: int| 0 <= i < t2.len() && t2[i] == x;
            assert(t[i + 1] == x);
            assert(lex_lt(t[0], x));
            assert(s.to_set().contains(x));
            let j = choose|j: int| 0 <= j < s.len() && s[j] == x;
            if j == 0 {
                lemma_lex_irreflexive(x);
            }
            assert(s2[j - 1] == x);
        }
        assert(s2.to_set() =~= t2.to_set());
        lemma_strictly_sorted_unique(s2, t2);
        assert(s =~= seq![s[0]] + s2);
        assert(t =~= seq![t[0]] + t2);
    }
}

/// Pushing an element adds it to the set of elements.
pub proof fn lemma_push_to_set<A>(s: Seq<A>, x: A)
    ensures
        s.push(x).to_set() == s.to_set().insert(x),
{
    assert forall|y: A| s.push(x).to_set().contains(y) implies s.to_set().insert(x).contains(y) by {
        let k = choose|k: int| 0 <= k < s.push(x).len() && s.push(x)[k] == y;
        if k < s.len() {
            assert(s[k] == y);
        }
    }
    assert forall|y: A| s.to_set().insert(x).contains(y) implies s.push(x).to_set().contains(y) by {
        if y == x {
            assert(s.push(x)[s.len() as int] == y);
        } else {
            let k = choose|k: int| 0 <= k < s.len() && s[k] == y;
            assert(s.push(x)[k] == y);
        }
    }
    assert(s.push(x).to_set() =~= s.to_set().insert(x));
}

/// Sorts `vs` and drops repeated elements (`sort(); dedup();`).
pub fn sort_dedup(vs: &Vec<Vec<char>>) -> (r: Vec<Vec<char>>)
    ensures
        r@.map_values(|v: Vec<char>| v@) == sorted_unique(vs@.map_values(|v: Vec<char>| v@)),
{
    let ghost vv = vs@.map_values(|v: Vec<char>| v@);
    let mut out: Vec<Vec<char>> = Vec::new();
    let mut i: usize = 0;
    while i < vs.len()
        invariant
            i <= vs.len(),
            vv == vs@.map_values(|v: Vec<char>| v@),
            strictly_sorted(out@.map_values(|v: Vec<char>| v@)),
            out@.map_values(|v: Vec<char>| v@).to_set() == vv.take(i as int).to_set(),
        decreases vs.len() - i,
    {
        let x = &vs[i];
        let ghost o = out@.map_values(|v: Vec<char>| v@);
        let mut p: usize = 0;
        while p < out.len() && lex_less(&out[p], x)
            invariant
                p <= out.len(),
                o == out@.map_values(|v: Vec<char>| v@),
                forall|k: int| 0 <= k < p ==> lex_lt(#[trigger] o[k], x@),
            decreases out.len() - p,
        {
            p += 1;
        }
        assert(vv.take(i + 1) =~= vv.take(i as int).push(x@));
        if p < out.len() && lex_less(x, &out[p]) == false {
            // out[p] is neither below nor above x: it is x
            proof {
                lemma_lex_total(o[p as int], x@);
                assert(o[p as int] == x@);
                assert(o.to_set().contains(x@));
                lemma_push_to_set(vv.take(i as int), x@);
            }
        } else {
            let xc = x.clone();
            proof {
                assert(xc@ == x@);
            }
            out.insert(p, xc);
            proof {
                let o2 = out@.map_values(|v: Vec<char>| v@);
                assert(o2 =~= o.insert(p as int, x@));
                assert forall|a: int, b: int| 0 <= a < b < o2.len() implies lex_lt(#[trigger] o2[a], #[trigger] o2[b]) by {
                    if b < p {
                        assert(o2[a] == o[a] && o2[b] == o[b]);
                    } else if b == p {
                        assert(o2[a] == o[a]);
                    } else if a < p {
                        assert(o2[a] == o[a] && o2[b] == o[b - 1]);
                        assert(lex_lt(x@, o[p as int]));
                        if b - 1 > p {
                            lemma_lex_transitive(x@, o[p as int], o[b - 1]);
                        }
                        lemma_lex_transitive(o[a], x@, o[b - 1]);
                    } else if a == p {
                        assert(o2[b] == o[b - 1]);
                        assert(lex_lt(x@, o[p as int]));
                        if b - 1 > p {
                            lemma_lex_transitive(x@, o[p as int], o[b - 1]);
                        }
                    } else {
                        assert(o2[a] == o[a - 1] && o2[b] == o[b - 1]);
                    }
                }
                assert(o2.to_set() =~= o.to_set().insert(x@)) by {
                    assert forall|y: Seq<char>| o2.to_set().contains(y) implies o.to_set().insert(x@).contains(y) by {
                        let k = choose|k: int| 0 <= k < o2.len() && o2[k] == y;
                        if k < p {
                            assert(o[k] == y);
                        } else if k > p {
                            assert(o[k - 1] == y);
                        }
                    }
                    assert forall|y: Seq<char>| o.to_set().insert(x@).contains(y) implies o2.to_set().contains(y) by {
                        if y == x@ {
                            assert(o2[p as int] == y);
                        } else {
                            let k = choose|k: int| 0 <= k < o.len() && o[k] == y;
                            if k < p {
                                assert(o2[k] == y);
                            } else {
                                assert(o2[k + 1] == y);
                            }
                        }
                    }
                }
                lemma_push_to_set(vv.take(i as int), x@);
            }
        }
        i += 1;
    }
    proof {
        assert(vv.take(vs.len() as int) =~= vv);
        let r = out@.map_values(|v: Vec<char>| v@);
        lemma_strictly_sorted_unique(r, sorted_unique(vv));
    }
    out
}

} // verus!

verus! {

/// An ASCII decimal digit.
pub open spec fn is_digit(c: char) -> bool {
    '0' <= c && c <= '9'
}

/// An ASCII hexadecimal digit, either case.
pub open spec fn is_hex_digit(c: char) -> bool {
    ||| ('0' <= c && c <= '9')
    ||| ('a' <= c && c <= 'f')
    ||| ('A' <= c && c <= 'F')
}

/// Every character of `s` is an ASCII digit (true of the empty sequence).
pub open spec fn all_digits(s: Seq<char>) -> bool {
    forall|i: int| 0 <= i < s.len() ==> #[trigger] is_digit(s[i])
}

/// Executable form of [`all_digits`].
pub fn all_digits_exec(v: &Vec<char>) -> (r: bool)
    ensures
        r == all_digits(v@),
{
    for i in 0..v.len()
        invariant
            forall|k: int| 0 <= k < i ==> #[trigger] is_digit(v@[k]),
    {
        if !('0' <= v[i] && v[i] <= '9') {
            assert(!is_digit(v@[i as int]));
            return false;
        }
    }
    true
}

/// `s` split at the first `c`: what comes before it, and what comes after it
/// if there is one.
pub open spec fn split_first(s: Seq<char>, c: char) -> (Seq<char>, Option<Seq<char>>)
    decreases s.len(),
{
    if s.len() == 0 {
        (Seq::empty(), None)
    } else if s[0] == c {
        (Seq::empty(), Some(s.drop_first()))
    } else {
        let rest = split_first(s.drop_first(), c);
        (seq![s[0]] + rest.0, rest.1)
    }
}

/// Skipping a prefix that holds no `c` leaves the split point in place.
pub proof fn lemma_split_first_skip(s: Seq<char>, c: char, i: int)
    requires
        0 <= i <= s.len(),
        forall|k: int| 0 <= k < i ==> s[k] != c,
    ensures
        split_first(s, c).0 == s.take(i) + split_first(s.skip(i), c).0,
        split_first(s, c).1 == split_first(s.skip(i), c).1,
    decreases i,
{
    if i == 0 {
        assert(s.skip(0) =~= s);
        assert(s.take(0) + split_first(s.skip(0), c).0 =~= split_first(s, c).0);
    } else {
        lemma_split_first_skip(s.drop_first(), c, i - 1);
        assert(s.drop_first().skip(i - 1) =~= s.skip(i));
        assert(seq![s[0]] + (s.drop_first().take(i - 1) + split_first(s.skip(i), c).0)
            =~= s.take(i) + split_first(s.skip(i), c).0);
    }
}

/// `str::split_once(c)` style split of a character sequence at its first `c`.
pub fn split_at_first(v: &Vec<char>, c: char) -> (r: (Vec<char>, Option<Vec<char>>))
    ensures
        r.0@ == split_first(v@, c).0,
        match r.1 {
            Some(t) => split_first(v@, c).1 == Some(t@),
            None => split_first(v@, c).1 is None,
        },
{
    let mut i: usize = 0;
    while i < v.len() && v[i] != c
        invariant
            i <= v.len(),
            forall|k: int| 0 <= k < i ==> v@[k] != c,
        decreases v.len() - i,
    {
        i += 1;
    }
    proof { lemma_split_first_skip(v@, c, i as int); }
    let head = sub_chars(v, 0, i);
    assert(v@.subrange(0, i as int) =~= v@.take(i as int));
    if i < v.len() {
        let tail = sub_chars(v, i + 1, v.len());
        proof {
            assert(v@.skip(i as int).drop_first() =~= v@.subrange(i + 1, v.len() as int));
            assert(split_first(v@.skip(i as int), c).0 =~= Seq::<char>::empty());
            assert(head@ + Seq::<char>::empty() =~= head@);
        }
        (head, Some(tail))
    } else {
        proof {
            assert(v@.skip(i as int).len() == 0);
            assert(head@ + Seq::<char>::empty() =~= head@);
        }
        (head, None)
    }
}

/// ASCII lower-casing of one character; others are left as they are.
pub open spec fn ascii_lower(c: char) -> char {
    if 'A' <= c && c <= 'Z' {
        ((c as u32) + 32) as char
    } else {
        c
    }
}

/// Executable form of [`ascii_lower`].
pub fn to_ascii_lower(c: char) -> (r: char)
    ensures
        r == ascii_lower(c),
{
    if 'A' <= c && c <= 'Z' {
        let b: u8 = ((c as u32) + 32) as u8;
        b as char
    } else {
        c
    }
}

/// ASCII case-insensitive equality (`str::eq_ignore_ascii_case`).
pub open spec fn eq_ignore_case(a: Seq<char>, b: Seq<char>) -> bool {
    a.len() == b.len() && forall|i: int| 0 <= i < a.len() ==> #[trigger] ascii_lower(a[i]) == ascii_lower(b[i])
}

/// Executable form of [`eq_ignore_case`].
pub fn eq_ignore_ascii_case(a: &Vec<char>, b: &Vec<char>) -> (r: bool)
    ensures
        r == eq_ignore_case(a@, b@),
{
    if a.len() != b.len() {
        return false;
    }
    for i in 0..a.len()
        invariant
            a.len() == b.len(),
            forall|k: int| 0 <= k < i ==> #[trigger] ascii_lower(a@[k]) == ascii_lower(b@[k]),
    {
        if to_ascii_lower(a[i]) != to_ascii_lower(b[i]) {
            return false;
        }
    }
    true
}

/// `needle` occurs in `hay` as a contiguous run (the empty needle always does).
pub open spec fn contains_seq(hay: Seq<char>, needle: Seq<char>) -> bool {
    exists|k: int| 0 <= k && k + needle.len() <= hay.len() && #[trigger] hay.subrange(k, k + needle.len()) == needle
}

/// Whether `needle` occurs at position `k` of `hay`.
fn occurs_at(hay: &Vec<char>, needle: &Vec<char>, k: usize) -> (r: bool)
    requires
        k + needle.len() <= hay.len(),
    ensures
        r == (hay@.subrange(k as int, k + needle.len()) == needle@),
{
    for j in 0..needle.len()
        invariant
            k + needle.len() <= hay.len(),
            forall|m: int| 0 <= m < j ==> hay@[k + m] == needle@[m],
    {
        if hay[k + j] != needle[j] {
            assert(hay@.subrange(k as int, k + needle.len())[j as int] != needle@[j as int]);
            return false;
        }
    }
    assert(hay@.subrange(k as int, k + needle.len()) =~= needle@);
    true
}

/// `str::contains` for a string needle.
pub fn contains_chars(hay: &Vec<char>, needle: &Vec<char>) -> (r: bool)
    ensures
        r == contains_seq(hay@, needle@),
{
    if needle.len() > hay.len() {
        return false;
    }
    let last = hay.len() - needle.len();
    let mut k: usize = 0;
    loop
        invariant
            k <= last,
            last + needle.len() == hay.len(),
            forall|m: int| 0 <= m < k ==> #[trigger] hay@.subrange(m, m + needle.len()) != needle@,
        decreases last - k,
    {
        if occurs_at(hay, needle, k) {
            return true;
        }
        if k == last {
            assert forall|m: int| 0 <= m && m + needle.len() <= hay.len() implies #[trigger] hay@.subrange(m, m + needle.len()) != needle@ by {
                assert(m <= last);
            }
            return false;
        }
        k += 1;
    }
}

/// `str::starts_with` for a string prefix.
pub fn starts_with_chars(s: &Vec<char>, prefix: &Vec<char>) -> (r: bool)
    ensures
        r == prefix@.is_prefix_of(s@),
{
    if prefix.len() > s.len() {
        return false;
    }
    let r = occurs_at(s, prefix, 0);
    assert(s@.subrange(0, prefix.len() as int) =~= s@.take(prefix.len() as int));
    r
}

/// Two character vectors hold the same characters.
pub fn same_chars(a: &Vec<char>, b: &Vec<char>) -> (r: bool)
    ensures
        r == (a@ == b@),
{
    if a.len() != b.len() {
        return false;
    }
    let r = occurs_at(a, b, 0);
    assert(a@.subrange(0, b.len() as int) =~= a@);
    r
}

} // verus!

verus! {

/// What `str::to_lowercase` gives for a string (full Unicode lower-casing).
pub uninterp spec fn lowercased(s: Seq<char>) -> Seq<char>;

/// `str::to_lowercase`: the Unicode lower-case form of a string, a
/// function of the string alone; its tables are not restated here.
#[verifier::external_body]
pub(crate) fn to_lowercase(s: &str) -> (r: String)
    ensures
        r@ == lowercased(s@),
{
    s.to_lowercase()
}

/// The whitespace-separated words of `s` (`str::split_whitespace`).
pub open spec fn words(s: Seq<char>) -> Seq<Seq<char>>
    decreases s.len(),
{
    if s.len() == 0 {
        Seq::empty()
    } else if is_ws(s[0]) {
        words(s.drop_first())
    } else {
        let w = word_at(s);
        proof {
            lemma_word_at_len(s);
        }
        seq![w] + words(s.skip(w.len() as int))
    }
}

/// The run of non-whitespace characters at the front of `s`.
pub open spec fn word_at(s: Seq<char>) -> Seq<char>
    decreases s.len(),
{
    if s.len() == 0 || is_ws(s[0]) {
        Seq::empty()
    } else {
        seq![s[0]] + word_at(s.drop_first())
    }
}

/// A word is no longer than the text, and not empty at a non-space.
pub proof fn lemma_word_at_len(s: Seq<char>)
    ensures
        word_at(s).len() <= s.len(),
        s.len() > 0 && !is_ws(s[0]) ==> word_at(s).len() > 0,
    decreases s.len(),
{
    if s.len() > 0 && !is_ws(s[0]) {
        lemma_word_at_len(s.drop_first());
    }
}

/// Splits a string at whitespace, dropping empty pieces.
pub fn split_whitespace(s: &str) -> (r: Vec<String>)
    ensures
        r@.map_values(|w: String| w@) == words(s@),
{
    let v = chars_of(s);
    let mut out: Vec<String> = Vec::new();
    let mut i: usize = 0;
    assert(v@.skip(0) =~= v@);
    assert(out@.map_values(|w: String| w@) =~= Seq::<Seq<char>>::empty());
    while i < v.len()
        invariant
            i <= v.len(),
            v@ == s@,
            words(s@) == out@.map_values(|w: String| w@) + words(v@.skip(i as int)),
        decreases v.len() - i,
    {
        let ghost rest = v@.skip(i as int);
        if is_whitespace(v[i]) {
            assert(rest.drop_first() =~= v@.skip(i + 1));
            i += 1;
        } else {
            let start = i;
            let mut w: Vec<char> = Vec::new();
            while i < v.len() && !is_whitespace(v[i])
                invariant
                    start <= i <= v.len(),
                    rest == v@.skip(start as int),
                    w@.len() == i - start,
                    word_at(rest) == w@ + word_at(v@.skip(i as int)),
                decreases v.len() - i,
            {
                assert(v@.skip(i as int).drop_first() =~= v@.skip(i + 1));
                assert(w@ + word_at(v@.skip(i as int)) =~= w@.push(v@[i as int]) + word_at(v@.skip(i + 1)));
                w.push(v[i]);
                i += 1;
            }
            assert(w@ + word_at(v@.skip(i as int)) =~= w@);
            proof {
                lemma_word_at_len(rest);
                assert(w@.len() == i - start);
                assert(rest.skip(w@.len() as int) =~= v@.skip(i as int));
            }
            let ghost before = out@.map_values(|x: String| x@);
            let ws = string_from(w.as_slice());
            out.push(ws);
            assert(out@.map_values(|x: String| x@) =~= before.push(w@));
            assert(before + (seq![w@] + words(v@.skip(i as int))) =~= before.push(w@) + words(v@.skip(i as int)));
        }
    }
    assert(out@.map_values(|x: String| x@) + words(v@.skip(i as int)) =~= out@.map_values(|x: String| x@));
    out
}

} // verus!
