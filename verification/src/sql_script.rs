//! Splitting a SQL schema script into the statements to run one by one.
//!
//! Comments (`--` up to the end of its line) are removed line by line
//! before the text is cut at every `;`, so that a comment can only ever
//! hide the rest of its own line. Each piece is trimmed and the blank
//! pieces are dropped.

use vstd::prelude::*;
use crate::text::{chars_of, trim_chars, trim_spec, lemma_trim_shape};

verus! {

/// The pieces of `s` between the occurrences of `sep` (`str::split`):
/// always at least one piece, the separators themselves left out.
pub open spec fn split_spec(s: Seq<char>, sep: char) -> Seq<Seq<char>>
    decreases s.len(),
{
    if s.len() == 0 {
        seq![Seq::empty()]
    } else {
        let init = split_spec(s.drop_last(), sep);
        if s.last() == sep {
            init.push(Seq::empty())
        } else {
            init.update(init.len() - 1, init.last().push(s.last()))
        }
    }
}

/// The pieces `ls` put end to end with `sep` between each two.
pub open spec fn join_spec(ls: Seq<Seq<char>>, sep: char) -> Seq<char>
    decreases ls.len(),
{
    if ls.len() == 0 {
        Seq::empty()
    } else if ls.len() == 1 {
        ls[0]
    } else {
        join_spec(ls.drop_last(), sep).push(sep) + ls.last()
    }
}

/// `l` without one trailing carriage return.
pub open spec fn strip_cr_spec(l: Seq<char>) -> Seq<char> {
    if l.len() > 0 && l.last() == '\r' {
        l.drop_last()
    } else {
        l
    }
}

/// The lines of `s` (`str::lines`): the text is cut at each `\n`, a `\r`
/// just before a `\n` goes with the line ending, and a final line ending
/// adds no empty line.
pub open spec fn lines_spec(s: Seq<char>) -> Seq<Seq<char>> {
    let p = split_spec(s, '\n');
    let n: int = if p.last().len() == 0 {
        p.len() - 1
    } else {
        p.len() as int
    };
    Seq::new(n as nat, |i: int| if i < p.len() - 1 { strip_cr_spec(p[i]) } else { p[i] })
}

/// Where the first `--` of `l` at or after `i` starts, or `l.len()`.
pub open spec fn comment_start_from(l: Seq<char>, i: int) -> int
    decreases l.len() - i,
{
    if i < 0 || i + 1 >= l.len() {
        l.len() as int
    } else if l[i] == '-' && l[i + 1] == '-' {
        i
    } else {
        comment_start_from(l, i + 1)
    }
}

/// The line `l` cut at its first `--`.
pub open spec fn cut_comment_spec(l: Seq<char>) -> Seq<char> {
    l.take(comment_start_from(l, 0))
}

/// The script `raw` with every comment removed, its lines joined by `\n`.
pub open spec fn uncommented_spec(raw: Seq<char>) -> Seq<char> {
    join_spec(lines_spec(raw).map_values(|l: Seq<char>| cut_comment_spec(l)), '\n')
}

/// The statements of the script `raw`, in order: the uncommented text cut
/// at each `;`, each piece trimmed, the empty ones left out.
pub open spec fn statements_spec(raw: Seq<char>) -> Seq<Seq<char>> {
    split_spec(uncommented_spec(raw), ';').map_values(|p: Seq<char>| trim_spec(p)).filter(
        |t: Seq<char>| t.len() > 0,
    )
}

/// The texts held by a vector of character vectors.
pub open spec fn seqs_of(v: Seq<Vec<char>>) -> Seq<Seq<char>> {
    v.map_values(|x: Vec<char>| x@)
}

/// The texts held by a vector of strings.
pub open spec fn strings_of(v: Seq<String>) -> Seq<Seq<char>> {
    v.map_values(|x: String| x@)
}

/// `s` contains the character `c`.
pub open spec fn has_char(s: Seq<char>, c: char) -> bool {
    exists|i: int| 0 <= i < s.len() && s[i] == c
}

/// `s` contains two `-` in a row.
pub open spec fn has_double_dash(s: Seq<char>) -> bool {
    exists|i: int| 0 <= i && i + 1 < s.len() && #[trigger] s[i] == '-' && s[i + 1] == '-'
}

proof fn lemma_split_nonempty(s: Seq<char>, sep: char)
    ensures
        split_spec(s, sep).len() >= 1,
    decreases s.len(),
{
    if s.len() > 0 {
        lemma_split_nonempty(s.drop_last(), sep);
    }
}

/// The pieces of `cs` between the occurrences of `sep`.
pub fn split_chars(cs: &Vec<char>, sep: char) -> (r: Vec<Vec<char>>)
    ensures
        seqs_of(r@) == split_spec(cs@, sep),
{
    let mut done: Vec<Vec<char>> = Vec::new();
    let mut cur: Vec<char> = Vec::new();
    let mut i: usize = 0;
    while i < cs.len()
        invariant
            i <= cs.len(),
            split_spec(cs@.take(i as int), sep) == seqs_of(done@).push(cur@),
        decreases cs.len() - i,
    {
        assert(cs@.take(i + 1).drop_last() =~= cs@.take(i as int));
        let c = cs[i];
        if c == sep {
            let ghost before = seqs_of(done@);
            let piece = cur;
            done.push(piece);
            cur = Vec::new();
            assert(seqs_of(done@) =~= before.push(piece@));
        } else {
            let ghost before = seqs_of(done@);
            cur.push(c);
            assert(seqs_of(done@).push(cur@) =~= before.push(cur@.drop_last()).update(
                before.len() as int,
                cur@,
            ));
        }
        i = i + 1;
    }
    assert(cs@.take(cs.len() as int) =~= cs@);
    let ghost before = seqs_of(done@);
    done.push(cur);
    assert(seqs_of(done@) =~= split_spec(cs@, sep));
    done
}

/// The pieces `ls` put end to end with `sep` between each two.
pub fn join_chars(ls: &Vec<Vec<char>>, sep: char) -> (r: Vec<char>)
    ensures
        r@ == join_spec(seqs_of(ls@), sep),
{
    let mut r: Vec<char> = Vec::new();
    let mut i: usize = 0;
    while i < ls.len()
        invariant
            i <= ls.len(),
            r@ == join_spec(seqs_of(ls@).take(i as int), sep),
        decreases ls.len() - i,
    {
        let ghost before = r@;
        if i > 0 {
            r.push(sep);
        }
        let piece = &ls[i];
        let mut k: usize = 0;
        while k < piece.len()
            invariant
                k <= piece.len(),
                i < ls.len(),
                piece == ls@[i as int],
                r@ == (if i > 0 { before.push(sep) } else { before }) + piece@.take(k as int),
            decreases piece.len() - k,
        {
            r.push(piece[k]);
            k = k + 1;
            assert(r@ =~= (if i > 0 { before.push(sep) } else { before }) + piece@.take(k as int));
        }
        assert(piece@.take(k as int) =~= piece@);
        let ghost t = seqs_of(ls@).take(i + 1);
        assert(t.drop_last() =~= seqs_of(ls@).take(i as int));
        assert(t.last() == piece@);
        if i == 0 {
            assert(before =~= Seq::<char>::empty());
            assert(r@ =~= t[0]);
        }
        i = i + 1;
    }
    assert(seqs_of(ls@).take(ls.len() as int) =~= seqs_of(ls@));
    r
}

/// The line `l` cut at its first `--`.
pub fn cut_comment(l: &Vec<char>) -> (r: Vec<char>)
    ensures
        r@ == cut_comment_spec(l@),
{
    let mut i: usize = 0;
    while i < l.len() && i + 1 < l.len() && !(l[i] == '-' && l[i + 1] == '-')
        invariant
            i <= l.len(),
            comment_start_from(l@, 0) == comment_start_from(l@, i as int),
        decreases l.len() - i,
    {
        i = i + 1;
    }
    let end: usize = if i < l.len() && i + 1 < l.len() { i } else { l.len() };
    let mut r: Vec<char> = Vec::new();
    let mut k: usize = 0;
    while k < end
        invariant
            k <= end <= l.len(),
            r@ == l@.take(k as int),
        decreases end - k,
    {
        r.push(l[k]);
        k = k + 1;
        assert(r@ =~= l@.take(k as int));
    }
    r
}

/// The lines of `cs` (as `str::lines` gives them).
pub fn lines_of(cs: &Vec<char>) -> (r: Vec<Vec<char>>)
    ensures
        seqs_of(r@) == lines_spec(cs@),
{
    let pieces = split_chars(cs, '\n');
    proof {
        lemma_split_nonempty(cs@, '\n');
    }
    let np = pieces.len();
    let n: usize = if pieces[np - 1].len() == 0 { np - 1 } else { np };
    let ghost p = seqs_of(pieces@);
    assert(p.last() == pieces@[np - 1]@);
    let mut r: Vec<Vec<char>> = Vec::new();
    let mut i: usize = 0;
    while i < n
        invariant
            i <= n <= np == pieces.len(),
            p == seqs_of(pieces@),
            n == (if p.last().len() == 0 { p.len() - 1 } else { p.len() as int }),
            seqs_of(r@) == lines_spec(cs@).take(i as int),
            p == split_spec(cs@, '\n'),
            p.len() >= 1,
            r@.len() == i,
        decreases n - i,
    {
        let piece = &pieces[i];
        let mut line: Vec<char> = piece.clone();
        assert(line@ == p[i as int]);
        if i + 1 < np && line.len() > 0 && line[line.len() - 1] == '\r' {
            line.pop();
        }
        assert(lines_spec(cs@)[i as int] == (if i < p.len() - 1 {
            strip_cr_spec(p[i as int])
        } else {
            p[i as int]
        }));
        assert(line@ == lines_spec(cs@)[i as int]);
        let ghost old_r = r@;
        r.push(line);
        assert forall|k: int| 0 <= k < i + 1 implies #[trigger] seqs_of(r@)[k] == lines_spec(
            cs@,
        ).take(i + 1)[k] by {
            if k < i {
                assert(r@[k] == old_r[k]);
                assert(seqs_of(old_r)[k] == lines_spec(cs@).take(i as int)[k]);
            }
        }
        assert(seqs_of(r@) =~= lines_spec(cs@).take(i + 1));
        i = i + 1;
    }
    assert(lines_spec(cs@).take(n as int) =~= lines_spec(cs@));
    r
}

/// The script text without its comments, lines joined by `\n`.
pub fn uncomment(cs: &Vec<char>) -> (r: Vec<char>)
    ensures
        r@ == uncommented_spec(cs@),
{
    let lines = lines_of(cs);
    let mut cut: Vec<Vec<char>> = Vec::new();
    let mut i: usize = 0;
    while i < lines.len()
        invariant
            i <= lines.len(),
            seqs_of(lines@) == lines_spec(cs@),
            seqs_of(cut@) == lines_spec(cs@).map_values(|l: Seq<char>| cut_comment_spec(l)).take(
                i as int,
            ),
            cut@.len() == i,
            lines_spec(cs@).len() == lines.len(),
        decreases lines.len() - i,
    {
        let c = cut_comment(&lines[i]);
        assert(lines@[i as int]@ == seqs_of(lines@)[i as int]);
        assert(c@ == lines_spec(cs@).map_values(|l: Seq<char>| cut_comment_spec(l))[i as int]);
        let ghost old_cut = cut@;
        cut.push(c);
        assert forall|k: int| 0 <= k < i + 1 implies #[trigger] seqs_of(cut@)[k] == lines_spec(
            cs@,
        ).map_values(|l: Seq<char>| cut_comment_spec(l)).take(i + 1)[k] by {
            if k < i {
                assert(cut@[k] == old_cut[k]);
                assert(seqs_of(old_cut)[k] == lines_spec(cs@).map_values(
                    |l: Seq<char>| cut_comment_spec(l),
                ).take(i as int)[k]);
            }
        }
        assert(seqs_of(cut@) =~= lines_spec(cs@).map_values(
            |l: Seq<char>| cut_comment_spec(l),
        ).take(i + 1));
        i = i + 1;
    }
    assert(lines_spec(cs@).map_values(|l: Seq<char>| cut_comment_spec(l)).take(
        lines.len() as int,
    ) =~= lines_spec(cs@).map_values(|l: Seq<char>| cut_comment_spec(l)));
    join_chars(&cut, '\n')
}

/// The SQL statements of a schema script, in order, each trimmed and none
/// empty.
pub fn split_statements(script: &str) -> (r: Vec<String>)
    ensures
        strings_of(r@) == statements_spec(script@),
{
    let cs = chars_of(script);
    let text = uncomment(&cs);
    let pieces = split_chars(&text, ';');
    let ghost trimmed = split_spec(text@, ';').map_values(|p: Seq<char>| trim_spec(p));
    let mut r: Vec<String> = Vec::new();
    let mut i: usize = 0;
    while i < pieces.len()
        invariant
            i <= pieces.len(),
            seqs_of(pieces@) == split_spec(text@, ';'),
            trimmed == split_spec(text@, ';').map_values(|p: Seq<char>| trim_spec(p)),
            strings_of(r@) == trimmed.take(i as int).filter(|t: Seq<char>| t.len() > 0),
        decreases pieces.len() - i,
    {
        let t = trim_chars(&pieces[i]);
        assert(pieces@[i as int]@ == seqs_of(pieces@)[i as int]);
        assert(t@ == trimmed[i as int]);
        let ghost before = strings_of(r@);
        assert(trimmed.take(i + 1).drop_last() =~= trimmed.take(i as int));
        reveal_with_fuel(Seq::filter, 1);
        if !t.as_str().is_empty() {
            r.push(t);
            assert(strings_of(r@) =~= before.push(t@));
        }
        i = i + 1;
    }
    assert(trimmed.take(pieces.len() as int) =~= trimmed);
    r
}


/// No piece of `split_spec(s, sep)` contains `sep`.
proof fn lemma_split_no_sep(s: Seq<char>, sep: char)
    ensures
        forall|k: int|
            0 <= k < split_spec(s, sep).len() ==> !has_char(#[trigger] split_spec(s, sep)[k], sep),
    decreases s.len(),
{
    lemma_split_nonempty(s, sep);
    if s.len() > 0 {
        let init = split_spec(s.drop_last(), sep);
        lemma_split_no_sep(s.drop_last(), sep);
        lemma_split_nonempty(s.drop_last(), sep);
        if s.last() != sep {
            let last = init.last();
            assert(!has_char(init[init.len() - 1], sep));
            assert forall|k: int| 0 <= k < split_spec(s, sep).len() implies !has_char(
                #[trigger] split_spec(s, sep)[k],
                sep,
            ) by {
                if k == init.len() - 1 {
                    let p = last.push(s.last());
                    if has_char(p, sep) {
                        let i = choose|i: int| 0 <= i < p.len() && p[i] == sep;
                        assert(last[i] == sep);
                    }
                } else {
                    assert(split_spec(s, sep)[k] == init[k]);
                }
            }
        }
    }
}

/// The last piece of `split_spec(s, sep)` is `s[k..]` for some `k`.
proof fn lemma_split_last_suffix(s: Seq<char>, sep: char) -> (k: int)
    ensures
        0 <= k <= s.len(),
        split_spec(s, sep).len() >= 1,
        split_spec(s, sep).last() == s.subrange(k, s.len() as int),
    decreases s.len(),
{
    lemma_split_nonempty(s, sep);
    if s.len() == 0 {
        assert(s.subrange(0, 0) =~= Seq::<char>::empty());
        0
    } else if s.last() == sep {
        assert(s.subrange(s.len() as int, s.len() as int) =~= Seq::<char>::empty());
        s.len() as int
    } else {
        let k = lemma_split_last_suffix(s.drop_last(), sep);
        assert(s.drop_last().subrange(k, s.len() - 1).push(s.last()) =~= s.subrange(
            k,
            s.len() as int,
        ));
        k
    }
}

/// Pieces of a text with no `--` have no `--`.
proof fn lemma_split_no_double_dash(s: Seq<char>, sep: char)
    requires
        !has_double_dash(s),
    ensures
        forall|k: int|
            0 <= k < split_spec(s, sep).len() ==> !has_double_dash(
                #[trigger] split_spec(s, sep)[k],
            ),
    decreases s.len(),
{
    lemma_split_nonempty(s, sep);
    if s.len() > 0 {
        let t = s.drop_last();
        assert(!has_double_dash(t)) by {
            if has_double_dash(t) {
                let i = choose|i: int|
                    0 <= i && i + 1 < t.len() && #[trigger] t[i] == '-' && t[i + 1] == '-';
                assert(s[i] == '-' && s[i + 1] == '-');
            }
        }
        lemma_split_no_double_dash(t, sep);
        let init = split_spec(t, sep);
        if s.last() != sep {
            let start = lemma_split_last_suffix(t, sep);
            let last = init.last();
            assert(!has_double_dash(init[init.len() - 1]));
            assert forall|k: int| 0 <= k < split_spec(s, sep).len() implies !has_double_dash(
                #[trigger] split_spec(s, sep)[k],
            ) by {
                if k == init.len() - 1 {
                    let p = last.push(s.last());
                    if has_double_dash(p) {
                        let i = choose|i: int|
                            0 <= i && i + 1 < p.len() && #[trigger] p[i] == '-' && p[i + 1] == '-';
                        if i + 1 < last.len() {
                            assert(last[i] == '-' && last[i + 1] == '-');
                        } else {
                            assert(last[i] == t[start + i]);
                            assert(s[start + i] == '-' && s[start + i + 1] == '-');
                        }
                    }
                } else {
                    assert(split_spec(s, sep)[k] == init[k]);
                }
            }
        }
    }
}

/// `comment_start_from(l, i)` is the first `--` at or after `i`.
proof fn lemma_comment_start(l: Seq<char>, i: int)
    requires
        0 <= i <= l.len(),
    ensures
        i <= comment_start_from(l, i) <= l.len(),
        forall|j: int|
            i <= j && j + 1 < comment_start_from(l, i) + 1 && j + 1 < l.len() ==> !(#[trigger] l[j]
                == '-' && l[j + 1] == '-'),
    decreases l.len() - i,
{
    if i + 1 < l.len() && !(l[i] == '-' && l[i + 1] == '-') {
        lemma_comment_start(l, i + 1);
    }
}

/// A line cut at its first `--` is a prefix of it holding no `--`.
proof fn lemma_cut_comment(l: Seq<char>)
    ensures
        exists|k: int| 0 <= k <= l.len() && cut_comment_spec(l) == l.take(k),
        !has_double_dash(cut_comment_spec(l)),
{
    lemma_comment_start(l, 0);
    let k = comment_start_from(l, 0);
    let c = cut_comment_spec(l);
    if has_double_dash(c) {
        let i = choose|i: int| 0 <= i && i + 1 < c.len() && #[trigger] c[i] == '-' && c[i + 1] == '-';
        assert(l[i] == '-' && l[i + 1] == '-');
    }
}

/// Joining texts without `--` by a separator other than `-` gives no `--`.
proof fn lemma_join_no_double_dash(ls: Seq<Seq<char>>, sep: char)
    requires
        sep != '-',
        forall|k: int| 0 <= k < ls.len() ==> !has_double_dash(#[trigger] ls[k]),
    ensures
        !has_double_dash(join_spec(ls, sep)),
    decreases ls.len(),
{
    if ls.len() >= 2 {
        let a = join_spec(ls.drop_last(), sep);
        let b = ls.last();
        assert forall|k: int| 0 <= k < ls.drop_last().len() implies !has_double_dash(
            #[trigger] ls.drop_last()[k],
        ) by {
            assert(ls.drop_last()[k] == ls[k]);
        }
        lemma_join_no_double_dash(ls.drop_last(), sep);
        assert(!has_double_dash(ls[ls.len() - 1]));
        let j = a.push(sep) + b;
        if has_double_dash(j) {
            let i = choose|i: int| 0 <= i && i + 1 < j.len() && #[trigger] j[i] == '-' && j[i + 1] == '-';
            if i + 1 < a.len() {
                assert(a[i] == '-' && a[i + 1] == '-');
            } else if i > a.len() {
                assert(b[i - a.len() - 1] == '-' && b[i - a.len()] == '-');
            }
        }
    } else if ls.len() == 1 {
        assert(!has_double_dash(ls[0]));
    }
}

/// A stretch of a text keeps the text's absence of a character and of `--`.
proof fn lemma_subrange_clean(s: Seq<char>, i: int, j: int, c: char)
    requires
        0 <= i <= j <= s.len(),
    ensures
        !has_char(s, c) ==> !has_char(s.subrange(i, j), c),
        !has_double_dash(s) ==> !has_double_dash(s.subrange(i, j)),
{
    let t = s.subrange(i, j);
    if has_char(t, c) {
        let k = choose|k: int| 0 <= k < t.len() && t[k] == c;
        assert(s[i + k] == c);
    }
    if has_double_dash(t) {
        let k = choose|k: int| 0 <= k && k + 1 < t.len() && #[trigger] t[k] == '-' && t[k + 1] == '-';
        assert(s[i + k] == '-' && s[i + k + 1] == '-');
    }
}

/// What holds of every element of `s` holds of every element of a filter of it.
proof fn lemma_filter_keeps(
    s: Seq<Seq<char>>,
    pred: spec_fn(Seq<char>) -> bool,
    good: spec_fn(Seq<char>) -> bool,
)
    requires
        forall|k: int| 0 <= k < s.len() ==> good(#[trigger] s[k]),
    ensures
        forall|k: int| 0 <= k < s.filter(pred).len() ==> good(#[trigger] s.filter(pred)[k]),
    decreases s.len(),
{
    reveal_with_fuel(Seq::filter, 1);
    if s.len() > 0 {
        assert forall|k: int| 0 <= k < s.drop_last().len() implies good(
            #[trigger] s.drop_last()[k],
        ) by {
            assert(s.drop_last()[k] == s[k]);
        }
        lemma_filter_keeps(s.drop_last(), pred, good);
        let f = s.drop_last().filter(pred);
        assert forall|k: int| 0 <= k < s.filter(pred).len() implies good(
            #[trigger] s.filter(pred)[k],
        ) by {
            if k < f.len() {
                assert(s.filter(pred)[k] == f[k]);
            } else {
                assert(s.filter(pred)[k] == s.last());
                assert(good(s[s.len() - 1]));
            }
        }
    }
}

/// The uncommented script holds no `--`.
proof fn lemma_uncommented_no_double_dash(raw: Seq<char>)
    ensures
        !has_double_dash(uncommented_spec(raw)),
{
    let cut = lines_spec(raw).map_values(|l: Seq<char>| cut_comment_spec(l));
    assert forall|k: int| 0 <= k < cut.len() implies !has_double_dash(#[trigger] cut[k]) by {
        lemma_cut_comment(lines_spec(raw)[k]);
    }
    lemma_join_no_double_dash(cut, '\n');
}

/// Every statement that a schema script yields is non-empty, neither
/// begins nor ends with white space, and holds neither a `;` nor a `--`:
/// statements are cut at every `;` and comments never reach them.
pub proof fn law_statements_are_clean(raw: Seq<char>)
    ensures
        forall|k: int|
            0 <= k < statements_spec(raw).len() ==> {
                let st = #[trigger] statements_spec(raw)[k];
                &&& st.len() > 0
                &&& !crate::text::is_white_space(st[0])
                &&& !crate::text::is_white_space(st.last())
                &&& !has_char(st, ';')
                &&& !has_double_dash(st)
            },
{
    let text = uncommented_spec(raw);
    let pieces = split_spec(text, ';');
    let trimmed = pieces.map_values(|p: Seq<char>| trim_spec(p));
    lemma_uncommented_no_double_dash(raw);
    lemma_split_no_sep(text, ';');
    lemma_split_no_double_dash(text, ';');
    let good = |t: Seq<char>|
        (t.len() > 0 ==> !crate::text::is_white_space(t[0]) && !crate::text::is_white_space(
            t.last(),
        )) && !has_char(t, ';') && !has_double_dash(t);
    assert forall|k: int| 0 <= k < trimmed.len() implies good(#[trigger] trimmed[k]) by {
        let p = pieces[k];
        lemma_trim_shape(p);
        let (i, j) = choose|i: int, j: int|
            0 <= i <= j <= p.len() && trim_spec(p) == p.subrange(i, j);
        lemma_subrange_clean(p, i, j, ';');
    }
    let nonempty = |t: Seq<char>| t.len() > 0;
    lemma_filter_keeps(trimmed, nonempty, good);
    assert forall|k: int| 0 <= k < trimmed.filter(nonempty).len() implies #[trigger] trimmed.filter(
        nonempty,
    )[k].len() > 0 by {
        trimmed.lemma_filter_pred(nonempty, k);
    }
    assert(statements_spec(raw) == trimmed.filter(nonempty));
}


/// Appending text without `sep` lengthens the last piece only.
proof fn lemma_split_append(a: Seq<char>, b: Seq<char>, sep: char)
    requires
        !has_char(b, sep),
    ensures
        split_spec(a + b, sep) == split_spec(a, sep).update(
            split_spec(a, sep).len() - 1,
            split_spec(a, sep).last() + b,
        ),
    decreases b.len(),
{
    lemma_split_nonempty(a, sep);
    let sa = split_spec(a, sep);
    if b.len() == 0 {
        assert(a + b =~= a);
        assert(sa.last() + b =~= sa.last());
        assert(sa.update(sa.len() - 1, sa.last() + b) =~= sa);
    } else {
        let b0 = b.drop_last();
        assert(!has_char(b0, sep)) by {
            if has_char(b0, sep) {
                let i = choose|i: int| 0 <= i < b0.len() && b0[i] == sep;
                assert(b[i] == sep);
            }
        }
        assert(b.last() != sep) by {
            assert(b[b.len() - 1] == b.last());
        }
        lemma_split_append(a, b0, sep);
        assert((a + b).drop_last() =~= a + b0);
        assert((a + b).last() == b.last());
        let s0 = split_spec(a + b0, sep);
        assert((sa.last() + b0).push(b.last()) =~= sa.last() + b);
        assert(s0.update(s0.len() - 1, s0.last().push(b.last())) =~= sa.update(
            sa.len() - 1,
            sa.last() + b,
        ));
    }
}

/// Cutting at `sep` a text joined by `sep` gives back its pieces, when no
/// piece holds `sep`.
proof fn lemma_split_join(ls: Seq<Seq<char>>, sep: char)
    requires
        ls.len() >= 1,
        forall|k: int| 0 <= k < ls.len() ==> !has_char(#[trigger] ls[k], sep),
    ensures
        split_spec(join_spec(ls, sep), sep) == ls,
    decreases ls.len(),
{
    let e = Seq::<char>::empty();
    if ls.len() == 1 {
        assert(!has_char(ls[0], sep));
        lemma_split_append(e, ls[0], sep);
        assert(e + ls[0] =~= ls[0]);
        assert(split_spec(e, sep) =~= seq![e]);
        assert(e + ls[0] =~= ls[0]);
        assert(seq![e].update(0, e + ls[0]) =~= ls);
    } else {
        let init = ls.drop_last();
        assert forall|k: int| 0 <= k < init.len() implies !has_char(#[trigger] init[k], sep) by {
            assert(init[k] == ls[k]);
        }
        lemma_split_join(init, sep);
        let j = join_spec(init, sep).push(sep);
        assert(!has_char(ls[ls.len() - 1], sep));
        lemma_split_append(j, ls.last(), sep);
        assert(j.drop_last() =~= join_spec(init, sep));
        let sj = split_spec(j, sep);
        assert(sj == init.push(e));
        assert(e + ls.last() =~= ls.last());
        assert(sj.update(sj.len() - 1, sj.last() + ls.last()) =~= ls);
    }
}

/// The lines of a text hold no line feed.
proof fn lemma_lines_no_newline(raw: Seq<char>)
    ensures
        forall|k: int|
            0 <= k < lines_spec(raw).len() ==> !has_char(#[trigger] lines_spec(raw)[k], '\n'),
{
    let p = split_spec(raw, '\n');
    lemma_split_nonempty(raw, '\n');
    lemma_split_no_sep(raw, '\n');
    assert forall|k: int| 0 <= k < lines_spec(raw).len() implies !has_char(
        #[trigger] lines_spec(raw)[k],
        '\n',
    ) by {
        assert(!has_char(p[k], '\n'));
        let q = p[k];
        if q.len() > 0 && q.last() == '\r' {
            lemma_subrange_clean(q, 0, q.len() - 1, '\n');
            assert(q.drop_last() =~= q.subrange(0, q.len() - 1));
        }
    }
}

/// Removing comments never merges, splits or drops lines: the
/// uncommented script has exactly the lines of the script, each one a
/// prefix of the script line, cut at its first `--` and holding no `--`.
/// (An empty script has no line at all, while its uncommented text, the
/// empty text, reads as one empty line.)
pub proof fn law_comments_stay_on_their_line(raw: Seq<char>)
    requires
        raw.len() > 0,
    ensures
        split_spec(uncommented_spec(raw), '\n') == lines_spec(raw).map_values(
            |l: Seq<char>| cut_comment_spec(l),
        ),
        forall|k: int|
            0 <= k < lines_spec(raw).len() ==> {
                let c = #[trigger] cut_comment_spec(lines_spec(raw)[k]);
                &&& exists|j: int| 0 <= j <= lines_spec(raw)[k].len() && c == lines_spec(raw)[k].take(j)
                &&& !has_double_dash(c)
            },
{
    let p = split_spec(raw, '\n');
    lemma_split_nonempty(raw.drop_last(), '\n');
    assert(lines_spec(raw).len() >= 1);
    let cut = lines_spec(raw).map_values(|l: Seq<char>| cut_comment_spec(l));
    lemma_lines_no_newline(raw);
    assert forall|k: int| 0 <= k < cut.len() implies !has_char(#[trigger] cut[k], '\n') by {
        let l = lines_spec(raw)[k];
        assert(!has_char(l, '\n'));
        lemma_cut_comment(l);
        let j = choose|j: int| 0 <= j <= l.len() && cut_comment_spec(l) == l.take(j);
        lemma_subrange_clean(l, 0, j, '\n');
        assert(l.take(j) =~= l.subrange(0, j));
    }
    lemma_split_join(cut, '\n');
    assert forall|k: int| 0 <= k < lines_spec(raw).len() implies {
        let c = #[trigger] cut_comment_spec(lines_spec(raw)[k]);
        &&& exists|j: int| 0 <= j <= lines_spec(raw)[k].len() && c == lines_spec(raw)[k].take(j)
        &&& !has_double_dash(c)
    } by {
        lemma_cut_comment(lines_spec(raw)[k]);
    }
}

/// A line is cut only where a comment starts: the part kept is a prefix
/// of the line with no `--` starting in it, and it stops either at the end
/// of the line or just before a `--`. In particular a line with no `--`
/// is kept whole.
pub proof fn law_cut_only_at_double_dash(l: Seq<char>)
    ensures
        ({
            let c = cut_comment_spec(l);
            &&& c.len() <= l.len()
            &&& forall|k: int| 0 <= k < c.len() ==> #[trigger] c[k] == l[k]
            &&& forall|k: int|
                0 <= k < c.len() && k + 1 < l.len() ==> !(#[trigger] l[k] == '-' && l[k + 1] == '-')
            &&& c.len() < l.len() ==> l[c.len() as int] == '-' && l[c.len() as int + 1] == '-'
        }),
        !has_double_dash(l) ==> cut_comment_spec(l) == l,
{
    lemma_comment_start(l, 0);
    lemma_comment_start_found(l, 0);
    let c = cut_comment_spec(l);
    if !has_double_dash(l) && c.len() < l.len() {
        assert(l[c.len() as int] == '-' && l[c.len() as int + 1] == '-');
        assert(has_double_dash(l));
    }
    if c.len() == l.len() {
        assert(c =~= l);
    }
}

/// When `comment_start_from(l, i)` stops before the end, a `--` starts there.
proof fn lemma_comment_start_found(l: Seq<char>, i: int)
    requires
        0 <= i <= l.len(),
    ensures
        comment_start_from(l, i) < l.len() ==> comment_start_from(l, i) + 1 < l.len()
            && l[comment_start_from(l, i)] == '-' && l[comment_start_from(l, i) + 1] == '-',
    decreases l.len() - i,
{
    if i + 1 < l.len() && !(l[i] == '-' && l[i + 1] == '-') {
        lemma_comment_start_found(l, i + 1);
    }
}

/// Cutting a text at `sep` loses nothing but the separators: putting the
/// pieces back together with `sep` between them gives the text again.
pub proof fn law_split_then_join(s: Seq<char>, sep: char)
    ensures
        join_spec(split_spec(s, sep), sep) == s,
        forall|k: int|
            0 <= k < split_spec(s, sep).len() ==> !has_char(#[trigger] split_spec(s, sep)[k], sep),
    decreases s.len(),
{
    lemma_split_no_sep(s, sep);
    lemma_split_nonempty(s, sep);
    if s.len() == 0 {
        assert(join_spec(seq![Seq::<char>::empty()], sep) == Seq::<char>::empty());
    } else {
        let t = s.drop_last();
        law_split_then_join(t, sep);
        lemma_split_nonempty(t, sep);
        let p = split_spec(t, sep);
        if s.last() == sep {
            let q = p.push(Seq::<char>::empty());
            assert(q.drop_last() =~= p);
            assert(join_spec(q, sep) == join_spec(p, sep).push(sep) + Seq::<char>::empty());
            assert(t.push(sep) + Seq::<char>::empty() =~= s);
        } else {
            let q = p.update(p.len() - 1, p.last().push(s.last()));
            if p.len() == 1 {
                assert(join_spec(p, sep) == p[0]);
                assert(join_spec(q, sep) == q[0]);
                assert(q[0] =~= t.push(s.last()));
            } else {
                assert(q.drop_last() =~= p.drop_last());
                let j = join_spec(p.drop_last(), sep).push(sep);
                assert(join_spec(p, sep) == j + p.last());
                assert(join_spec(q, sep) == j + q.last());
                assert(j + p.last().push(s.last()) =~= (j + p.last()).push(s.last()));
            }
            assert(t.push(s.last()) =~= s);
        }
    }
}

} // verus!
