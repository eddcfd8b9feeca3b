//! Markdown bodies: line splitting, heading lookup and the normalization that
//! semantic hashes are computed over.

use vstd::prelude::*;

use crate::text::{
    lemma_pieces_nonempty, lemma_trim_by, pieces, split_pieces, push_str_chars, str_chars, string_from_chars,
    trim_by,
};

verus! {

/// The pieces of `s` between newline characters (always at least one).
pub open spec fn segments(s: Seq<char>) -> Seq<Seq<char>> {
    pieces(s, '\n')
}

/// A line that ended in a newline loses a carriage return before it.
pub open spec fn strip_cr(l: Seq<char>) -> Seq<char> {
    if l.len() > 0 && l.last() == '\r' {
        l.drop_last()
    } else {
        l
    }
}

/// The lines of `s` as `str::lines` yields them: split at `\n`, a `\r`
/// before a `\n` removed, and no empty final line after a trailing newline.
pub open spec fn lines(s: Seq<char>) -> Seq<Seq<char>> {
    let segs = segments(s);
    let terminated = segs.take(segs.len() - 1).map_values(|l: Seq<char>| strip_cr(l));
    if segs.last().len() == 0 {
        terminated
    } else {
        terminated.push(segs.last())
    }
}

fn strip_cr_exec(l: &Vec<char>) -> (r: Vec<char>)
    ensures
        r@ == strip_cr(l@),
{
    let mut r = l.clone();
    if r.len() > 0 && r[r.len() - 1] == '\r' {
        r.pop();
    }
    r
}

/// Computes `lines(s)` as vectors.
pub fn split_lines(s: &[char]) -> (out: Vec<Vec<char>>)
    ensures
        out@.map_values(|v: Vec<char>| v@) == lines(s@),
{
    let segs = split_pieces(s, '\n');
    proof { lemma_pieces_nonempty(s@, '\n'); }
    let ghost sv = segs@.map_values(|v: Vec<char>| v@);
    let mut out: Vec<Vec<char>> = Vec::new();
    let mut i: usize = 0;
    while i + 1 < segs.len()
        invariant
            sv == segs@.map_values(|v: Vec<char>| v@),
            sv.len() >= 1,
            i + 1 <= segs.len(),
            out@.map_values(|v: Vec<char>| v@) == sv.take(i as int).map_values(|l: Seq<char>| strip_cr(l)),
        decreases segs.len() - i,
    {
        assert(sv[i as int] == segs[i as int]@);
        let l = strip_cr_exec(&segs[i]);
        let ghost before = out@.map_values(|v: Vec<char>| v@);
        out.push(l);
        assert(out@.map_values(|v: Vec<char>| v@) =~= before.push(strip_cr(sv[i as int])));
        assert(sv.take(i + 1).map_values(|l: Seq<char>| strip_cr(l)) =~= sv.take(i as int).map_values(
            |l: Seq<char>| strip_cr(l),
        ).push(strip_cr(sv[i as int])));
        i = i + 1;
    }
    let last = segs.len() - 1;
    if segs[last].len() > 0 {
        out.push(segs[last].clone());
    }
    assert(out@.map_values(|v: Vec<char>| v@) =~= lines(s@));
    out
}

/// Unicode white space, as `char::is_whitespace` recognizes it.
pub open spec fn is_whitespace(c: char) -> bool {
    ('\u{9}' <= c <= '\u{d}') || c == ' ' || c == '\u{85}' || c == '\u{a0}' || c == '\u{1680}'
        || ('\u{2000}' <= c <= '\u{200a}') || c == '\u{2028}' || c == '\u{2029}' || c == '\u{202f}'
        || c == '\u{205f}' || c == '\u{3000}'
}

fn whitespace(c: char) -> (b: bool)
    ensures
        b == is_whitespace(c),
{
    ('\u{9}' <= c && c <= '\u{d}') || c == ' ' || c == '\u{85}' || c == '\u{a0}' || c == '\u{1680}'
        || ('\u{2000}' <= c && c <= '\u{200a}') || c == '\u{2028}' || c == '\u{2029}' || c == '\u{202f}'
        || c == '\u{205f}' || c == '\u{3000}'
}

/// `s` without leading and trailing white space, as `str::trim` returns it.
pub open spec fn trim(s: Seq<char>) -> Seq<char> {
    trim_by(s, |c: char| is_whitespace(c))
}

/// Trims white space from both ends.
pub fn trim_chars(s: &[char]) -> (t: Vec<char>)
    ensures
        t@ == trim(s@),
{
    let mut lo: usize = 0;
    while lo < s.len() && whitespace(s[lo])
        invariant
            lo <= s.len(),
            forall|i: int| 0 <= i < lo ==> is_whitespace(#[trigger] s@[i]),
        decreases s.len() - lo,
    {
        lo = lo + 1;
    }
    let mut hi: usize = s.len();
    while hi > lo && whitespace(s[hi - 1])
        invariant
            lo <= hi <= s.len(),
            forall|i: int| hi <= i < s.len() ==> is_whitespace(#[trigger] s@[i]),
        decreases hi,
    {
        hi = hi - 1;
    }
    proof { lemma_trim_by(s@, |c: char| is_whitespace(c), lo as int, hi as int); }
    crate::text::slice_chars(s, lo, hi)
}

/// The heading line `## <heading>`.
pub open spec fn heading_line(heading: Seq<char>) -> Seq<char> {
    "## "@ + heading
}

/// Some line of `body`, trimmed, is the level-two heading `heading`.
pub open spec fn has_heading(body: Seq<char>, heading: Seq<char>) -> bool {
    exists|i: int| 0 <= i < lines(body).len() && #[trigger] trim(lines(body)[i]) == heading_line(heading)
}

pub fn markdown_has_heading(body: &str, heading: &str) -> (b: bool)
    ensures
        b == has_heading(body@, heading@),
{
    let mut expected: Vec<char> = Vec::new();
    push_str_chars(&mut expected, "## ");
    push_str_chars(&mut expected, heading);
    let chars = str_chars(body);
    let ls = split_lines(chars.as_slice());
    let ghost lv = ls@.map_values(|v: Vec<char>| v@);
    let mut i: usize = 0;
    while i < ls.len()
        invariant
            lv == ls@.map_values(|v: Vec<char>| v@),
            lv == lines(body@),
            expected@ == heading_line(heading@),
            i <= ls.len(),
            forall|j: int| 0 <= j < i ==> trim(#[trigger] lv[j]) != heading_line(heading@),
        decreases ls.len() - i,
    {
        let t = trim_chars(ls[i].as_slice());
        if crate::text::chars_eq(t.as_slice(), expected.as_slice()) {
            assert(trim(lv[i as int]) == heading_line(heading@));
            return true;
        }
        i = i + 1;
    }
    false
}

/// A line without its trailing spaces and tabs.
pub open spec fn strip_blanks(l: Seq<char>) -> Seq<char>
    decreases l.len(),
{
    if l.len() > 0 && (l.last() == ' ' || l.last() == '\t') {
        strip_blanks(l.drop_last())
    } else {
        l
    }
}

/// `ls` without its trailing empty lines.
pub open spec fn drop_trailing_empty(ls: Seq<Seq<char>>) -> Seq<Seq<char>>
    decreases ls.len(),
{
    if ls.len() > 0 && ls.last().len() == 0 {
        drop_trailing_empty(ls.drop_last())
    } else {
        ls
    }
}

/// Each line followed by a newline.
pub open spec fn terminate_lines(ls: Seq<Seq<char>>) -> Seq<char>
    decreases ls.len(),
{
    if ls.len() == 0 {
        Seq::empty()
    } else {
        terminate_lines(ls.drop_last()) + ls.last() + seq!['\n']
    }
}

/// The normalized body: trailing blanks removed from every line, trailing
/// empty lines dropped, and every remaining line ended by a newline.
pub open spec fn normalized(body: Seq<char>) -> Seq<char> {
    terminate_lines(drop_trailing_empty(lines(body).map_values(|l: Seq<char>| strip_blanks(l))))
}

fn strip_blanks_exec(l: &Vec<char>) -> (r: Vec<char>)
    ensures
        r@ == strip_blanks(l@),
{
    let mut r = l.clone();
    while r.len() > 0 && (r[r.len() - 1] == ' ' || r[r.len() - 1] == '\t')
        invariant
            strip_blanks(r@) == strip_blanks(l@),
        decreases r.len(),
    {
        r.pop();
    }
    r
}

/// Normalizes a Markdown body for hashing.
pub fn normalize_body(body: &str) -> (s: String)
    ensures
        s@ == normalized(body@),
{
    let chars = str_chars(body);
    let ls = split_lines(chars.as_slice());
    let ghost stripped = lines(body@).map_values(|l: Seq<char>| strip_blanks(l));
    let mut kept: Vec<Vec<char>> = Vec::new();
    let mut i: usize = 0;
    while i < ls.len()
        invariant
            ls@.map_values(|v: Vec<char>| v@) == lines(body@),
            stripped == lines(body@).map_values(|l: Seq<char>| strip_blanks(l)),
            i <= ls.len(),
            kept@.map_values(|v: Vec<char>| v@) == stripped.take(i as int),
        decreases ls.len() - i,
    {
        assert(ls@.map_values(|v: Vec<char>| v@)[i as int] == ls[i as int]@);
        let l = strip_blanks_exec(&ls[i]);
        let ghost before = kept@.map_values(|v: Vec<char>| v@);
        kept.push(l);
        assert(kept@.map_values(|v: Vec<char>| v@) =~= before.push(stripped[i as int]));
        assert(stripped.take(i + 1) =~= stripped.take(i as int).push(stripped[i as int]));
        i = i + 1;
    }
    assert(stripped.take(ls.len() as int) =~= stripped);
    while kept.len() > 0 && kept[kept.len() - 1].len() == 0
        invariant
            drop_trailing_empty(kept@.map_values(|v: Vec<char>| v@)) == drop_trailing_empty(stripped),
        decreases kept.len(),
    {
        let ghost before = kept@.map_values(|v: Vec<char>| v@);
        kept.pop();
        assert(kept@.map_values(|v: Vec<char>| v@) =~= before.drop_last());
    }
    let ghost final_lines = kept@.map_values(|v: Vec<char>| v@);
    assert(drop_trailing_empty(final_lines) == final_lines);
    let mut out: Vec<char> = Vec::new();
    let mut k: usize = 0;
    while k < kept.len()
        invariant
            final_lines == kept@.map_values(|v: Vec<char>| v@),
            k <= kept.len(),
            out@ == terminate_lines(final_lines.take(k as int)),
        decreases kept.len() - k,
    {
        let line = &kept[k];
        let mut j: usize = 0;
        let ghost start = out@;
        while j < line.len()
            invariant
                j <= line.len(),
                out@ == start + line@.take(j as int),
            decreases line.len() - j,
        {
            out.push(line[j]);
            j = j + 1;
        }
        out.push('\n');
        assert(line@.take(j as int) == line@);
        assert(final_lines[k as int] == line@);
        assert(final_lines.take(k + 1).drop_last() == final_lines.take(k as int));
        assert(final_lines.take(k + 1).last() == line@);
        k = k + 1;
    }
    assert(final_lines.take(kept.len() as int) == final_lines);
    string_from_chars(&out)
}

/// `l` has neither a newline nor a carriage return.
pub open spec fn plain_line(l: Seq<char>) -> bool {
    forall|j: int| 0 <= j < l.len() ==> #[trigger] l[j] != '\n' && l[j] != '\r'
}

proof fn lemma_pieces_plain(s: Seq<char>)
    requires
        forall|i: int| 0 <= i < s.len() ==> #[trigger] s[i] != '\r',
    ensures
        forall|k: int| 0 <= k < pieces(s, '\n').len() ==> plain_line(#[trigger] pieces(s, '\n')[k]),
    decreases s.len(),
{
    lemma_pieces_nonempty(s, '\n');
    if s.len() > 0 {
        let d = s.drop_last();
        assert forall|i: int| 0 <= i < d.len() implies #[trigger] d[i] != '\r' by {
            assert(d[i] == s[i]);
        }
        lemma_pieces_plain(d);
        lemma_pieces_nonempty(d, '\n');
        let rest = pieces(d, '\n');
        if s.last() != '\n' {
            let last = rest.last().push(s.last());
            assert(s[s.len() - 1] != '\r');
            assert(plain_line(rest[rest.len() - 1]));
            assert forall|j: int| 0 <= j < last.len() implies #[trigger] last[j] != '\n' && last[j] != '\r' by {
                if j < last.len() - 1 {
                    assert(last[j] == rest[rest.len() - 1][j]);
                }
            }
        }
    }
}

proof fn lemma_pieces_append_plain(s: Seq<char>, l: Seq<char>)
    requires
        plain_line(l),
    ensures
        pieces(s + l, '\n') == pieces(s, '\n').update(
            pieces(s, '\n').len() - 1,
            pieces(s, '\n').last() + l,
        ),
    decreases l.len(),
{
    lemma_pieces_nonempty(s, '\n');
    if l.len() == 0 {
        assert(s + l =~= s);
        assert(pieces(s, '\n').last() + l =~= pieces(s, '\n').last());
        assert(pieces(s, '\n').update(pieces(s, '\n').len() - 1, pieces(s, '\n').last())
            =~= pieces(s, '\n'));
    } else {
        let l1 = l.drop_last();
        assert forall|j: int| 0 <= j < l1.len() implies #[trigger] l1[j] != '\n' && l1[j] != '\r' by {
            assert(l1[j] == l[j]);
        }
        lemma_pieces_append_plain(s, l1);
        assert((s + l).drop_last() =~= s + l1);
        assert((s + l).last() == l.last());
        assert(l[l.len() - 1] != '\n');
        let p = pieces(s, '\n');
        assert(p.last() + l1 + seq![l.last()] =~= p.last() + l);
        assert((p.last() + l1).push(l.last()) =~= p.last() + l);
    }
}

proof fn lemma_pieces_of_terminated(ls: Seq<Seq<char>>)
    requires
        forall|k: int| 0 <= k < ls.len() ==> plain_line(#[trigger] ls[k]),
    ensures
        pieces(terminate_lines(ls), '\n') == ls.push(Seq::empty()),
    decreases ls.len(),
{
    if ls.len() > 0 {
        let init = ls.drop_last();
        assert forall|k: int| 0 <= k < init.len() implies plain_line(#[trigger] init[k]) by {
            assert(init[k] == ls[k]);
        }
        lemma_pieces_of_terminated(init);
        let t = terminate_lines(init);
        let l = ls.last();
        assert(plain_line(ls[ls.len() - 1]));
        lemma_pieces_append_plain(t, l);
        assert(Seq::<char>::empty() + l =~= l);
        assert(init.push(Seq::empty()).update(init.len() as int, l) =~= ls);
        assert(terminate_lines(ls) == t + l + seq!['\n']);
        assert((t + l + seq!['\n']).drop_last() =~= t + l);
    }
}

proof fn lemma_strip_blanks(l: Seq<char>)
    ensures
        strip_blanks(l).len() <= l.len(),
        forall|j: int| 0 <= j < strip_blanks(l).len() ==> #[trigger] strip_blanks(l)[j] == l[j],
        strip_blanks(strip_blanks(l)) == strip_blanks(l),
    decreases l.len(),
{
    if l.len() > 0 && (l.last() == ' ' || l.last() == '\t') {
        lemma_strip_blanks(l.drop_last());
        assert forall|j: int| 0 <= j < strip_blanks(l).len() implies #[trigger] strip_blanks(l)[j] == l[j] by {
            assert(l.drop_last()[j] == l[j]);
        }
    }
}

proof fn lemma_drop_trailing_empty(ls: Seq<Seq<char>>)
    ensures
        drop_trailing_empty(ls).len() <= ls.len(),
        forall|k: int| 0 <= k < drop_trailing_empty(ls).len() ==> #[trigger] drop_trailing_empty(ls)[k] == ls[k],
        drop_trailing_empty(ls).len() > 0 ==> drop_trailing_empty(ls).last().len() > 0,
    decreases ls.len(),
{
    if ls.len() > 0 && ls.last().len() == 0 {
        lemma_drop_trailing_empty(ls.drop_last());
        assert forall|k: int| 0 <= k < drop_trailing_empty(ls).len() implies #[trigger] drop_trailing_empty(ls)[k] == ls[k] by {
            assert(ls.drop_last()[k] == ls[k]);
        }
    }
}

proof fn lemma_drop_trailing_kept(ls: Seq<Seq<char>>)
    requires
        ls.len() > 0 ==> ls.last().len() > 0,
    ensures
        drop_trailing_empty(ls) == ls,
{
}

/// The lines a body normalizes to: its lines without trailing blanks and
/// without trailing empty lines.
pub open spec fn kept_lines(body: Seq<char>) -> Seq<Seq<char>> {
    drop_trailing_empty(lines(body).map_values(|l: Seq<char>| strip_blanks(l)))
}

proof fn lemma_normalized_lines(body: Seq<char>)
    requires
        forall|i: int| 0 <= i < body.len() ==> #[trigger] body[i] != '\r',
    ensures
        normalized(body) == terminate_lines(kept_lines(body)),
        lines(normalized(body)) == kept_lines(body),
        forall|k: int|
            0 <= k < kept_lines(body).len() ==> plain_line(#[trigger] kept_lines(body)[k]) && strip_blanks(
                kept_lines(body)[k],
            ) == kept_lines(body)[k],
        kept_lines(body).len() > 0 ==> kept_lines(body).last().len() > 0,
{
    let segs = segments(body);
    lemma_pieces_nonempty(body, '\n');
    lemma_pieces_plain(body);
    let ls = lines(body);
    let terminated = segs.take(segs.len() - 1).map_values(|l: Seq<char>| strip_cr(l));
    assert forall|k: int| 0 <= k < ls.len() implies plain_line(#[trigger] ls[k]) by {
        if k < segs.len() - 1 {
            assert(ls[k] == terminated[k]);
            assert(terminated[k] == strip_cr(segs[k]));
            assert(plain_line(segs[k]));
            assert(strip_cr(segs[k]) == segs[k]);
        } else {
            assert(ls[k] == segs.last());
            assert(plain_line(segs[segs.len() - 1]));
        }
    }
    let stripped = ls.map_values(|l: Seq<char>| strip_blanks(l));
    assert forall|k: int| 0 <= k < stripped.len() implies plain_line(#[trigger] stripped[k])
        && strip_blanks(stripped[k]) == stripped[k] by {
        lemma_strip_blanks(ls[k]);
        assert(plain_line(ls[k]));
        assert forall|j: int| 0 <= j < stripped[k].len() implies #[trigger] stripped[k][j] != '\n' && stripped[k][j] != '\r' by {
            assert(stripped[k][j] == ls[k][j]);
        }
    }
    let kept = drop_trailing_empty(stripped);
    lemma_drop_trailing_empty(stripped);
    assert forall|k: int| 0 <= k < kept.len() implies plain_line(#[trigger] kept[k]) && strip_blanks(kept[k])
        == kept[k] by {
        assert(kept[k] == stripped[k]);
    }
    let t = terminate_lines(kept);
    assert(normalized(body) == t);
    lemma_pieces_of_terminated(kept);
    let segs2 = segments(t);
    assert(segs2 == kept.push(Seq::empty()));
    assert(segs2.last().len() == 0);
    assert(lines(t) =~= kept) by {
        let terminated2 = segs2.take(segs2.len() - 1).map_values(|l: Seq<char>| strip_cr(l));
        assert forall|k: int| 0 <= k < kept.len() implies #[trigger] terminated2[k] == kept[k] by {
            assert(segs2[k] == kept[k]);
            assert(plain_line(kept[k]));
            if kept[k].len() > 0 {
                assert(kept[k][kept[k].len() - 1] != '\r');
            }
        }
    }

}

/// Normalizing a body that has no carriage return a second time changes
/// nothing, so such a body and its normalized form hash alike.
pub proof fn law_normalization_is_idempotent(body: Seq<char>)
    requires
        forall|i: int| 0 <= i < body.len() ==> #[trigger] body[i] != '\r',
    ensures
        normalized(normalized(body)) == normalized(body),
{
    lemma_normalized_lines(body);
    let kept = kept_lines(body);
    assert(lines(normalized(body)).map_values(|l: Seq<char>| strip_blanks(l)) =~= kept);
    lemma_drop_trailing_kept(kept);
}

/// The shape of a normalized body without carriage returns: its lines are
/// the body's lines with trailing spaces and tabs removed and trailing
/// empty lines dropped; no line ends in a space or a tab, the last line is
/// not empty, and the text is empty or ends in exactly one newline.
pub proof fn law_normalized_shape(body: Seq<char>)
    requires
        forall|i: int| 0 <= i < body.len() ==> #[trigger] body[i] != '\r',
    ensures
        lines(normalized(body)) == drop_trailing_empty(lines(body).map_values(|l: Seq<char>| strip_blanks(l))),
        forall|k: int|
            0 <= k < lines(normalized(body)).len() && #[trigger] lines(normalized(body))[k].len() > 0 ==> lines(
                normalized(body),
            )[k].last() != ' ' && lines(normalized(body))[k].last() != '\t',
        lines(normalized(body)).len() > 0 ==> lines(normalized(body)).last().len() > 0,
        normalized(body).len() == 0 || (normalized(body).len() >= 2 && normalized(body).last() == '\n'
            && normalized(body)[normalized(body).len() - 2] != '\n'),
{
    lemma_normalized_lines(body);
    let kept = kept_lines(body);
    let n = normalized(body);
    assert forall|k: int| 0 <= k < kept.len() && #[trigger] kept[k].len() > 0 implies kept[k].last() != ' '
        && kept[k].last() != '\t' by {
        lemma_strip_blanks(kept[k].drop_last());
    }
    if kept.len() > 0 {
        let init = kept.drop_last();
        let last = kept.last();
        assert(n == terminate_lines(init) + last + seq!['\n']);
        assert(plain_line(kept[kept.len() - 1]));
        assert(n[n.len() - 2] == last[last.len() - 1]);
    }
}

} // verus!
