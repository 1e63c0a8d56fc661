//! Character-level text handling: Unicode white space, trimming, empty
//! cells and timestamp rewriting.

use vstd::prelude::*;

verus! {

/// The Unicode `White_Space` property (the 25 code points that
/// `char::is_whitespace` and `str::trim` treat as white space).
pub open spec fn is_white_space(c: char) -> bool {
    let u = c as u32;
    ||| 0x09 <= u <= 0x0D
    ||| u == 0x20
    ||| u == 0x85
    ||| u == 0xA0
    ||| u == 0x1680
    ||| 0x2000 <= u <= 0x200A
    ||| u == 0x2028
    ||| u == 0x2029
    ||| u == 0x202F
    ||| u == 0x205F
    ||| u == 0x3000
}

/// Removes the white space at the front of `s`.
pub open spec fn trim_start_spec(s: Seq<char>) -> Seq<char>
    decreases s.len(),
{
    if s.len() > 0 && is_white_space(s[0]) {
        trim_start_spec(s.drop_first())
    } else {
        s
    }
}

/// Removes the white space at the end of `s`.
pub open spec fn trim_end_spec(s: Seq<char>) -> Seq<char>
    decreases s.len(),
{
    if s.len() > 0 && is_white_space(s.last()) {
        trim_end_spec(s.drop_last())
    } else {
        s
    }
}

/// `s` without its leading and trailing white space.
pub open spec fn trim_spec(s: Seq<char>) -> Seq<char> {
    trim_end_spec(trim_start_spec(s))
}

/// Tells whether `c` has the Unicode `White_Space` property.
pub fn is_white_space_char(c: char) -> (r: bool)
    ensures
        r == is_white_space(c),
{
    let u = c as u32;
    (0x09 <= u && u <= 0x0D) || u == 0x20 || u == 0x85 || u == 0xA0 || u == 0x1680 || (0x2000 <= u
        && u <= 0x200A) || u == 0x2028 || u == 0x2029 || u == 0x202F || u == 0x205F || u == 0x3000
}

/// Appends one character to a string with `String::push`; the contract
/// claims that the string's characters are then the old ones followed by `c`.
#[verifier::external_body]
pub(crate) fn push_char(s: &mut String, c: char)
    ensures
        final(s)@ == old(s)@.push(c),
{
    s.push(c);
}

/// The characters of `s`, in order.
pub fn chars_of(s: &str) -> (v: Vec<char>)
    ensures
        v@ == s@,
{
    let mut v: Vec<char> = Vec::new();
    for c in it: s.chars()
        invariant
            v@ == it.seq().take(it.index()),
    {
        v.push(c);
    }
    v
}

/// Removing the white-space prefix `s[..k]`, where `s[k]` (if any) is not
/// white space, is what `trim_start_spec` does.
proof fn lemma_trim_start_at(s: Seq<char>, k: int)
    requires
        0 <= k <= s.len(),
        forall|i: int| 0 <= i < k ==> is_white_space(#[trigger] s[i]),
        k == s.len() || !is_white_space(s[k]),
    ensures
        trim_start_spec(s) == s.subrange(k, s.len() as int),
    decreases k,
{
    if k == 0 {
        assert(s.subrange(0, s.len() as int) =~= s);
    } else {
        let t = s.drop_first();
        assert forall|i: int| 0 <= i < k - 1 implies is_white_space(#[trigger] t[i]) by {
            assert(t[i] == s[i + 1]);
        }
        lemma_trim_start_at(t, k - 1);
        assert(t.subrange(k - 1, t.len() as int) =~= s.subrange(k, s.len() as int));
    }
}

/// Removing the white-space suffix `s[k..]`, where `s[k - 1]` (if any) is not
/// white space, is what `trim_end_spec` does.
proof fn lemma_trim_end_at(s: Seq<char>, k: int)
    requires
        0 <= k <= s.len(),
        forall|i: int| k <= i < s.len() ==> is_white_space(#[trigger] s[i]),
        k == 0 || !is_white_space(s[k - 1]),
    ensures
        trim_end_spec(s) == s.subrange(0, k),
    decreases s.len() - k,
{
    if k == s.len() {
        assert(s.subrange(0, k) =~= s);
    } else {
        let t = s.drop_last();
        assert forall|i: int| k <= i < t.len() implies is_white_space(#[trigger] t[i]) by {
            assert(t[i] == s[i]);
        }
        lemma_trim_end_at(t, k);
        assert(t.subrange(0, k) =~= s.subrange(0, k));
    }
}

/// The string made of `v[from..to]`.
pub fn string_of_range(v: &Vec<char>, from: usize, to: usize) -> (r: String)
    requires
        from <= to <= v.len(),
    ensures
        r@ == v@.subrange(from as int, to as int),
{
    let mut r = String::new();
    let mut i = from;
    while i < to
        invariant
            from <= i <= to <= v.len(),
            r@ == v@.subrange(from as int, i as int),
        decreases to - i,
    {
        push_char(&mut r, v[i]);
        i = i + 1;
        assert(r@ =~= v@.subrange(from as int, i as int));
    }
    r
}

/// The bounds `(i, j)` of `cs` without its leading and trailing white space.
pub fn trim_bounds(cs: &Vec<char>) -> (r: (usize, usize))
    ensures
        r.0 <= r.1 <= cs.len(),
        cs@.subrange(r.0 as int, r.1 as int) == trim_spec(cs@),
{
    let n = cs.len();
    let mut i: usize = 0;
    while i < n && is_white_space_char(cs[i])
        invariant
            i <= n == cs.len(),
            forall|k: int| 0 <= k < i ==> is_white_space(#[trigger] cs@[k]),
        decreases n - i,
    {
        i = i + 1;
    }
    let mut j: usize = n;
    while j > i && is_white_space_char(cs[j - 1])
        invariant
            i <= j <= n == cs.len(),
            forall|k: int| j <= k < n ==> is_white_space(#[trigger] cs@[k]),
        decreases j,
    {
        j = j - 1;
    }
    proof {
        lemma_trim_start_at(cs@, i as int);
        let t = cs@.subrange(i as int, n as int);
        assert forall|k: int| j - i <= k < t.len() implies is_white_space(#[trigger] t[k]) by {
            assert(t[k] == cs@[k + i]);
        }
        if j > i {
            assert(t[j - i - 1] == cs@[j - 1]);
        }
        lemma_trim_end_at(t, j - i);
        assert(t.subrange(0, j - i) =~= cs@.subrange(i as int, j as int));
    }
    (i, j)
}

/// `cs` without its leading and trailing white space, as a string.
pub fn trim_chars(cs: &Vec<char>) -> (r: String)
    ensures
        r@ == trim_spec(cs@),
{
    let (i, j) = trim_bounds(cs);
    string_of_range(cs, i, j)
}

/// `s` without its leading and trailing white space (`str::trim`).
pub fn trim(s: &str) -> (r: String)
    ensures
        r@ == trim_spec(s@),
{
    let cs = chars_of(s);
    trim_chars(&cs)
}

/// Trimming yields a stretch of the input that neither begins nor ends
/// with white space, and trimming it again changes nothing.
pub proof fn lemma_trim_shape(s: Seq<char>)
    ensures
        exists|i: int, j: int| 0 <= i <= j <= s.len() && trim_spec(s) == s.subrange(i, j),
        trim_spec(s).len() > 0 ==> !is_white_space(trim_spec(s)[0]) && !is_white_space(
            trim_spec(s).last(),
        ),
        trim_spec(trim_spec(s)) == trim_spec(s),
{
    let i = lemma_trim_start_shape(s);
    let t = trim_start_spec(s);
    let j = lemma_trim_end_shape(t);
    assert(t.subrange(0, j) =~= s.subrange(i, i + j));
    let r = trim_spec(s);
    if r.len() > 0 {
        assert(r[0] == t[0]);
    }
    lemma_trim_start_at(r, 0);
    assert(r.subrange(0, r.len() as int) =~= r);
    lemma_trim_end_at(r, r.len() as int);
}

/// `trim_start_spec(s)` is `s[i..]` for some `i`, and begins with no white space.
proof fn lemma_trim_start_shape(s: Seq<char>) -> (i: int)
    ensures
        0 <= i <= s.len(),
        trim_start_spec(s) == s.subrange(i, s.len() as int),
        trim_start_spec(s).len() > 0 ==> !is_white_space(trim_start_spec(s)[0]),
        forall|k: int| 0 <= k < i ==> is_white_space(#[trigger] s[k]),
    decreases s.len(),
{
    if s.len() > 0 && is_white_space(s[0]) {
        let k = lemma_trim_start_shape(s.drop_first());
        assert(s.drop_first().subrange(k, s.len() - 1) =~= s.subrange(k + 1, s.len() as int));
        assert forall|m: int| 0 <= m < k + 1 implies is_white_space(#[trigger] s[m]) by {
            if m > 0 {
                assert(s[m] == s.drop_first()[m - 1]);
            }
        }
        k + 1
    } else {
        assert(s.subrange(0, s.len() as int) =~= s);
        0
    }
}

/// `trim_end_spec(s)` is `s[..j]` for some `j`, and ends with no white space.
proof fn lemma_trim_end_shape(s: Seq<char>) -> (j: int)
    ensures
        0 <= j <= s.len(),
        trim_end_spec(s) == s.subrange(0, j),
        trim_end_spec(s).len() > 0 ==> !is_white_space(trim_end_spec(s).last()),
        forall|k: int| j <= k < s.len() ==> is_white_space(#[trigger] s[k]),
    decreases s.len(),
{
    if s.len() > 0 && is_white_space(s.last()) {
        let k = lemma_trim_end_shape(s.drop_last());
        assert(s.drop_last().subrange(0, k) =~= s.subrange(0, k));
        assert forall|m: int| k <= m < s.len() implies is_white_space(#[trigger] s[m]) by {
            if m < s.len() - 1 {
                assert(s[m] == s.drop_last()[m]);
            }
        }
        k
    } else {
        assert(s.subrange(0, s.len() as int) =~= s);
        s.len() as int
    }
}

/// The content of a cell: `None` when it is empty or only white space,
/// else the cell without its surrounding white space.
pub open spec fn cell_spec(s: Seq<char>) -> Option<Seq<char>> {
    if trim_spec(s).len() == 0 {
        None
    } else {
        Some(trim_spec(s))
    }
}

/// The value of a cell: `None` (SQL `NULL`) for an empty or blank cell,
/// else the trimmed text.
pub fn opt(s: &str) -> (r: Option<String>)
    ensures
        r is None <==> cell_spec(s@) is None,
        r matches Some(t) ==> cell_spec(s@) == Some(t@),
        r matches Some(t) ==> t@.len() > 0 && !is_white_space(t@[0]) && !is_white_space(t@.last()),
{
    proof {
        lemma_trim_shape(s@);
    }
    let t = trim(s);
    if t.as_str().is_empty() {
        None
    } else {
        Some(t)
    }
}

/// An ISO 8601 timestamp (`2013-01-01T05:00:00Z`) in the form of a MySQL
/// `DATETIME` (`2013-01-01 05:00:00`): every `T` becomes a space and every
/// `Z` is dropped.
pub open spec fn mysql_datetime_spec(s: Seq<char>) -> Seq<char>
    decreases s.len(),
{
    if s.len() == 0 {
        Seq::empty()
    } else {
        let init = mysql_datetime_spec(s.drop_last());
        if s.last() == 'T' {
            init.push(' ')
        } else if s.last() == 'Z' {
            init
        } else {
            init.push(s.last())
        }
    }
}

/// Rewrites an ISO 8601 timestamp for a MySQL `DATETIME` column:
/// `T` becomes a space and `Z` is removed.
pub fn mysql_datetime(s: &str) -> (r: String)
    ensures
        r@ == mysql_datetime_spec(s@),
        forall|i: int| 0 <= i < r@.len() ==> #[trigger] r@[i] != 'T' && r@[i] != 'Z',
        r@.len() <= s@.len(),
{
    let cs = chars_of(s);
    let mut r = String::new();
    let mut i: usize = 0;
    while i < cs.len()
        invariant
            i <= cs.len(),
            cs@ == s@,
            r@ == mysql_datetime_spec(cs@.take(i as int)),
            forall|k: int| 0 <= k < r@.len() ==> #[trigger] r@[k] != 'T' && r@[k] != 'Z',
            r@.len() <= i,
        decreases cs.len() - i,
    {
        let c = cs[i];
        assert(cs@.take(i + 1).drop_last() =~= cs@.take(i as int));
        if c == 'T' {
            push_char(&mut r, ' ');
        } else if c != 'Z' {
            push_char(&mut r, c);
        }
        i = i + 1;
    }
    assert(cs@.take(cs.len() as int) =~= cs@);
    r
}

/// The value of a timestamp cell: `None` for an empty cell, else the
/// trimmed timestamp rewritten for MySQL.
pub open spec fn datetime_cell_spec(s: Seq<char>) -> Option<Seq<char>> {
    match cell_spec(s) {
        None => None,
        Some(t) => Some(mysql_datetime_spec(t)),
    }
}

/// `opt(s)` rewritten by `mysql_datetime`.
pub fn opt_datetime(s: &str) -> (r: Option<String>)
    ensures
        r is None <==> datetime_cell_spec(s@) is None,
        r matches Some(t) ==> datetime_cell_spec(s@) == Some(t@),
{
    match opt(s) {
        None => None,
        Some(t) => Some(mysql_datetime(t.as_str())),
    }
}

/// A cell is `NULL` exactly when it holds nothing but white space;
/// otherwise its value is the stretch of the cell between its leading and
/// its trailing white space, whatever characters it holds.
pub proof fn law_cell_keeps_what_is_not_white_space(s: Seq<char>)
    ensures
        cell_spec(s) is None <==> forall|k: int| 0 <= k < s.len() ==> is_white_space(#[trigger] s[k]),
        cell_spec(s) matches Some(t) ==> exists|i: int, j: int|
            0 <= i < j <= s.len() && t == s.subrange(i, j) && (forall|k: int|
                0 <= k < i ==> is_white_space(#[trigger] s[k])) && (forall|k: int|
                j <= k < s.len() ==> is_white_space(#[trigger] s[k])) && !is_white_space(s[i])
                && !is_white_space(s[j - 1]),
{
    let i = lemma_trim_start_shape(s);
    let t0 = trim_start_spec(s);
    let j = lemma_trim_end_shape(t0);
    let t = trim_spec(s);
    assert(t0.subrange(0, j) =~= s.subrange(i, i + j));
    assert forall|k: int| i + j <= k < s.len() implies is_white_space(#[trigger] s[k]) by {
        assert(s[k] == t0[k - i]);
    }
    if t.len() == 0 {
        assert forall|k: int| 0 <= k < s.len() implies is_white_space(#[trigger] s[k]) by {
            if k >= i {
                assert(s[k] == t0[k - i]);
            }
        }
    } else {
        assert(t[0] == s[i]);
        assert(t.last() == s[i + j - 1]);
        assert(!is_white_space(s[i]));
        assert(t == s.subrange(i, i + j));
    }
}

/// The timestamp rewrite of a text holding neither `T` nor `Z` is the
/// text itself.
pub proof fn law_datetime_keeps_other_characters(s: Seq<char>)
    requires
        forall|k: int| 0 <= k < s.len() ==> #[trigger] s[k] != 'T' && s[k] != 'Z',
    ensures
        mysql_datetime_spec(s) == s,
    decreases s.len(),
{
    if s.len() > 0 {
        assert forall|k: int| 0 <= k < s.drop_last().len() implies #[trigger] s.drop_last()[k]
            != 'T' && s.drop_last()[k] != 'Z' by {
            assert(s.drop_last()[k] == s[k]);
        }
        law_datetime_keeps_other_characters(s.drop_last());
        assert(s[s.len() - 1] == s.last());
        assert(s.drop_last().push(s.last()) =~= s);
    }
}

/// The timestamp rewrite works character by character: a `T` becomes a
/// space, a `Z` disappears, any other character stays; and the rewrite of
/// `a + b` is the rewrite of `a` followed by the rewrite of `b`.
pub proof fn law_datetime_by_character(a: Seq<char>, b: Seq<char>, c: char)
    ensures
        mysql_datetime_spec(seq![c]) == (if c == 'T' {
            seq![' ']
        } else if c == 'Z' {
            Seq::<char>::empty()
        } else {
            seq![c]
        }),
        mysql_datetime_spec(a + b) == mysql_datetime_spec(a) + mysql_datetime_spec(b),
    decreases b.len(),
{
    assert(seq![c].drop_last() =~= Seq::<char>::empty());
    assert(mysql_datetime_spec(Seq::<char>::empty()) == Seq::<char>::empty());
    assert(Seq::<char>::empty().push(' ') =~= seq![' ']);
    assert(Seq::<char>::empty().push(c) =~= seq![c]);
    if b.len() == 0 {
        assert(a + b =~= a);
        assert(mysql_datetime_spec(a) + Seq::<char>::empty() =~= mysql_datetime_spec(a));
    } else {
        law_datetime_by_character(a, b.drop_last(), c);
        assert((a + b).drop_last() =~= a + b.drop_last());
        assert((a + b).last() == b.last());
        let x = mysql_datetime_spec(a);
        let y = mysql_datetime_spec(b.drop_last());
        assert((x + y).push(' ') =~= x + y.push(' '));
        assert((x + y).push(b.last()) =~= x + y.push(b.last()));
    }
}

} // verus!
