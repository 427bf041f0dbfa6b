//! The post-pass over generated text: lines that are artifacts of the
//! generation tool are dropped, every other line is kept as it was, in
//! order.

use vstd::prelude::*;
use vstd::string::StringSliceAdditionalSpecFns;

verus! {

pub open spec fn newline() -> u8 {
    10u8
}

/// The directive lines that the generation tool emits for itself.
pub open spec fn artifact_lines() -> Seq<Seq<u8>> {
    seq![
        "# ! [ deny ( legacy_directory_ownership ) ]".spec_bytes(),
        "# ! [ deny ( plugin_as_library ) ]".spec_bytes(),
        "# ! [ deny ( safe_extern_statics ) ]".spec_bytes(),
        "# ! [ deny ( unions_with_drop_fields ) ]".spec_bytes(),
        "#![no_main]".spec_bytes(),
        "# ! [ no_std ]".spec_bytes(),
    ]
}

pub open spec fn is_artifact(line: Seq<u8>) -> bool {
    artifact_lines().contains(line)
}

pub open spec fn keep_line(line: Seq<u8>) -> bool {
    !is_artifact(line)
}

/// The pieces of `t` between newlines; the last piece is what follows the
/// last newline, possibly nothing.
pub open spec fn pieces(t: Seq<u8>) -> Seq<Seq<u8>>
    decreases t.len(),
{
    if t.len() == 0 {
        seq![Seq::empty()]
    } else {
        let p = pieces(t.drop_last());
        if t.last() == newline() {
            p.push(Seq::empty())
        } else {
            p.update(p.len() - 1, p.last().push(t.last()))
        }
    }
}

/// The pieces of `t` between newlines: a final newline ends the last
/// piece, it does not start an empty one.
pub open spec fn raw_lines(t: Seq<u8>) -> Seq<Seq<u8>> {
    let p = pieces(t);
    if p.last().len() == 0 {
        p.drop_last()
    } else {
        p
    }
}

/// Each line followed by a newline.
pub open spec fn join_lines(ls: Seq<Seq<u8>>) -> Seq<u8>
    decreases ls.len(),
{
    if ls.len() == 0 {
        Seq::empty()
    } else {
        join_lines(ls.drop_last()) + ls.last().push(newline())
    }
}

/// `l` without one trailing carriage return, if it ends with one.
pub open spec fn trim_cr(l: Seq<u8>) -> Seq<u8> {
    if l.len() > 0 && l.last() == 13u8 {
        l.drop_last()
    } else {
        l
    }
}

/// The lines of `t`, each without its line ending: `\n` or `\r\n`.
pub open spec fn lines_of(t: Seq<u8>) -> Seq<Seq<u8>> {
    raw_lines(t).map_values(|l: Seq<u8>| trim_cr(l))
}

/// `t` with its artifact lines removed; every kept line is written back
/// ending in `\n`.
pub open spec fn stripped(t: Seq<u8>) -> Seq<u8> {
    join_lines(lines_of(t).filter(|l: Seq<u8>| keep_line(l)))
}

pub open spec fn views(ls: Seq<Vec<u8>>) -> Seq<Seq<u8>> {
    ls.map_values(|l: Vec<u8>| l@)
}

fn bytes_equal(a: &[u8], b: &[u8]) -> (r: bool)
    ensures
        r == (a@ == b@),
{
    if a.len() != b.len() {
        return false;
    }
    let mut i: usize = 0;
    while i < a.len()
        invariant
            i <= a@.len(),
            a@.len() == b@.len(),
            forall|k: int| 0 <= k < i ==> a@[k] == b@[k],
        decreases a@.len() - i,
    {
        if a[i] != b[i] {
            return false;
        }
        i = i + 1;
    }
    assert(a@ =~= b@);
    true
}

/// Whether `line` is one of the generation tool's own directives.
pub fn is_artifact_line(line: &Vec<u8>) -> (r: bool)
    ensures
        r == is_artifact(line@),
{
    let l = line.as_slice();
    let a0 = bytes_equal(l, "# ! [ deny ( legacy_directory_ownership ) ]".as_bytes());
    let a1 = bytes_equal(l, "# ! [ deny ( plugin_as_library ) ]".as_bytes());
    let a2 = bytes_equal(l, "# ! [ deny ( safe_extern_statics ) ]".as_bytes());
    let a3 = bytes_equal(l, "# ! [ deny ( unions_with_drop_fields ) ]".as_bytes());
    let a4 = bytes_equal(l, "#![no_main]".as_bytes());
    let a5 = bytes_equal(l, "# ! [ no_std ]".as_bytes());
    proof {
        let d = artifact_lines();
        assert(d[0] == "# ! [ deny ( legacy_directory_ownership ) ]".spec_bytes());
        assert(d[1] == "# ! [ deny ( plugin_as_library ) ]".spec_bytes());
        assert(d[2] == "# ! [ deny ( safe_extern_statics ) ]".spec_bytes());
        assert(d[3] == "# ! [ deny ( unions_with_drop_fields ) ]".spec_bytes());
        assert(d[4] == "#![no_main]".spec_bytes());
        assert(d[5] == "# ! [ no_std ]".spec_bytes());
        if a0 || a1 || a2 || a3 || a4 || a5 {
            if a0 { assert(d[0] == line@); }
            if a1 { assert(d[1] == line@); }
            if a2 { assert(d[2] == line@); }
            if a3 { assert(d[3] == line@); }
            if a4 { assert(d[4] == line@); }
            if a5 { assert(d[5] == line@); }
        }
    }
    a0 || a1 || a2 || a3 || a4 || a5
}

/// Splits `text` at its newlines, which are dropped; a final newline does
/// not start an empty piece.
pub fn split_lines(text: &Vec<u8>) -> (r: Vec<Vec<u8>>)
    ensures
        views(r@) == raw_lines(text@),
{
    let mut done: Vec<Vec<u8>> = Vec::new();
    let mut cur: Vec<u8> = Vec::new();
    let mut i: usize = 0;
    while i < text.len()
        invariant
            i <= text@.len(),
            views(done@).push(cur@) == pieces(text@.take(i as int)),
        decreases text@.len() - i,
    {
        let b = text[i];
        let ghost t = text@.take(i + 1);
        proof {
            assert(t.drop_last() =~= text@.take(i as int));
            assert(t.last() == b);
        }
        if b == 10 {
            let line = cur;
            cur = Vec::new();
            done.push(line);
            assert(views(done@).push(cur@) =~= pieces(t));
        } else {
            cur.push(b);
            assert(views(done@).push(cur@) =~= pieces(t));
        }
        i = i + 1;
    }
    assert(text@.take(i as int) =~= text@);
    if cur.len() > 0 {
        done.push(cur);
        assert(views(done@) =~= raw_lines(text@));
    } else {
        assert(views(done@) =~= raw_lines(text@));
    }
    done
}

fn trim_line(l: &Vec<u8>) -> (r: Vec<u8>)
    ensures
        r@ == trim_cr(l@),
{
    let n: usize = if l.len() > 0 && l[l.len() - 1] == 13 { l.len() - 1 } else { l.len() };
    let mut r: Vec<u8> = Vec::new();
    let mut k: usize = 0;
    while k < n
        invariant
            n <= l@.len(),
            k <= n,
            r@ == l@.take(k as int),
        decreases n - k,
    {
        r.push(l[k]);
        k = k + 1;
        assert(r@ =~= l@.take(k as int));
    }
    assert(r@ =~= trim_cr(l@));
    r
}

/// Drops from `text` every line that is a generation-tool directive; each
/// kept line is written back followed by a newline, in its original order.
pub fn strip_artifacts(text: &Vec<u8>) -> (r: Vec<u8>)
    ensures
        r@ == stripped(text@),
{
    let lines = split_lines(text);
    let ghost ls = views(lines@).map_values(|l: Seq<u8>| trim_cr(l));
    let mut out: Vec<u8> = Vec::new();
    let mut i: usize = 0;
    while i < lines.len()
        invariant
            i <= lines@.len(),
            ls == views(lines@).map_values(|l: Seq<u8>| trim_cr(l)),
            ls == lines_of(text@),
            out@ == join_lines(ls.take(i as int).filter(|l: Seq<u8>| keep_line(l))),
        decreases lines@.len() - i,
    {
        let ghost before = out@;
        let line = &trim_line(&lines[i]);
        assert(ls[i as int] == line@);
        let skip = is_artifact_line(line);
        if !skip {
            let mut k: usize = 0;
            while k < line.len()
                invariant
                    k <= line@.len(),
                    out@ == before + line@.take(k as int),
                decreases line@.len() - k,
            {
                out.push(line[k]);
                k = k + 1;
                assert(out@ =~= before + line@.take(k as int));
            }
            out.push(10);
        }
        proof {
            let f = |l: Seq<u8>| keep_line(l);
            let t = ls.take(i + 1);
            assert(t.drop_last() =~= ls.take(i as int));
            assert(t.last() == line@);
            reveal(Seq::filter);
            assert(t.filter(f) == if f(t.last()) {
                t.drop_last().filter(f).push(t.last())
            } else {
                t.drop_last().filter(f)
            });
            if !skip {
                assert(line@.take(line@.len() as int) =~= line@);
                let sub = t.drop_last().filter(f);
                assert(t.filter(f).drop_last() =~= sub);
                assert(out@ =~= join_lines(t.filter(f)));
            }
        }
        i = i + 1;
    }
    assert(ls.take(i as int) =~= ls);
    out
}

/// `l` holds no newline.
pub open spec fn single_line(l: Seq<u8>) -> bool {
    forall|k: int| 0 <= k < l.len() ==> l[k] != newline()
}

pub open spec fn all_single(ls: Seq<Seq<u8>>) -> bool {
    forall|k: int| 0 <= k < ls.len() ==> single_line(#[trigger] ls[k])
}

proof fn lemma_pieces_single(t: Seq<u8>)
    ensures
        all_single(pieces(t)),
        pieces(t).len() >= 1,
    decreases t.len(),
{
    if t.len() > 0 {
        lemma_pieces_single(t.drop_last());
        let p = pieces(t.drop_last());
        if t.last() != newline() {
            let q = p.last().push(t.last());
            assert(single_line(q)) by {
                assert(single_line(p[p.len() - 1]));
            }
            assert forall|k: int| 0 <= k < pieces(t).len() implies single_line(#[trigger] pieces(t)[k]) by {
                if k < p.len() - 1 {
                    assert(single_line(p[k]));
                }
            }
        } else {
            assert forall|k: int| 0 <= k < pieces(t).len() implies single_line(#[trigger] pieces(t)[k]) by {
                if k < p.len() {
                    assert(single_line(p[k]));
                }
                if k == p.len() {
                    assert(pieces(t)[k] =~= Seq::<u8>::empty());
                }
            }
        }
    }
}

proof fn lemma_pieces_extend(x: Seq<u8>, l: Seq<u8>)
    requires
        single_line(l),
    ensures
        pieces(x + l) == pieces(x).update(pieces(x).len() - 1, pieces(x).last() + l),
    decreases l.len(),
{
    lemma_pieces_single(x);
    if l.len() == 0 {
        assert(x + l =~= x);
        assert(pieces(x).last() + l =~= pieces(x).last());
        assert(pieces(x).update(pieces(x).len() - 1, pieces(x).last() + l) =~= pieces(x));
    } else {
        let l0 = l.drop_last();
        assert(single_line(l0));
        lemma_pieces_extend(x, l0);
        assert((x + l).drop_last() =~= x + l0);
        assert((x + l).last() == l.last());
        lemma_pieces_single(x + l0);
        assert(l[l.len() - 1] != newline());
        let p = pieces(x);
        let p2 = pieces(x + l0);
        assert(p2.len() == p.len());
        assert(p2.last() == p.last() + l0);
        assert(pieces(x + l) == p2.update(p2.len() - 1, p2.last().push(l.last())));
        assert(p.last() + l0 + seq![l.last()] =~= p.last() + l);
        assert((p.last() + l0).push(l.last()) =~= p.last() + l);
        assert(pieces(x + l) =~= pieces(x).update(pieces(x).len() - 1, pieces(x).last() + l));
    }
}

proof fn lemma_pieces_join(ls: Seq<Seq<u8>>)
    requires
        all_single(ls),
    ensures
        pieces(join_lines(ls)) == ls.push(Seq::empty()),
    decreases ls.len(),
{
    if ls.len() == 0 {
        assert(pieces(join_lines(ls)) =~= ls.push(Seq::empty()));
    } else {
        let rest = ls.drop_last();
        let l = ls.last();
        assert(single_line(ls[ls.len() - 1]));
        assert(all_single(rest)) by {
            assert forall|k: int| 0 <= k < rest.len() implies single_line(#[trigger] rest[k]) by {
                assert(single_line(ls[k]));
            }
        }
        lemma_pieces_join(rest);
        let y = join_lines(rest) + l;
        lemma_pieces_extend(join_lines(rest), l);
        assert(join_lines(ls) =~= y.push(newline()));
        assert(y.push(newline()).drop_last() =~= y);
        assert(Seq::<u8>::empty() + l =~= l);
        assert(pieces(y) =~= ls);
        assert(pieces(join_lines(ls)) =~= ls.push(Seq::empty()));
    }
}

proof fn lemma_filter_single(ls: Seq<Seq<u8>>)
    requires
        all_single(ls),
    ensures
        all_single(ls.filter(|l: Seq<u8>| keep_line(l))),
    decreases ls.len(),
{
    reveal(Seq::filter);
    if ls.len() > 0 {
        let rest = ls.drop_last();
        assert(all_single(rest)) by {
            assert forall|k: int| 0 <= k < rest.len() implies single_line(#[trigger] rest[k]) by {
                assert(single_line(ls[k]));
            }
        }
        lemma_filter_single(rest);
        assert(single_line(ls[ls.len() - 1]));
        let f = ls.filter(|l: Seq<u8>| keep_line(l));
        let g = rest.filter(|l: Seq<u8>| keep_line(l));
        assert forall|k: int| 0 <= k < f.len() implies single_line(#[trigger] f[k]) by {
            if k < g.len() {
                assert(single_line(g[k]));
            }
        }
    }
}

/// The lines of the stripped text are exactly the lines of the input that
/// are not artifacts, each without its line ending, in their original
/// order.
pub proof fn lemma_strip_keeps_valid_lines(text: Seq<u8>)
    ensures
        raw_lines(stripped(text)) == lines_of(text).filter(|l: Seq<u8>| keep_line(l)),
{
    lemma_pieces_single(text);
    let raw = raw_lines(text);
    let ls = lines_of(text);
    assert(all_single(ls)) by {
        let p = pieces(text);
        assert forall|k: int| 0 <= k < ls.len() implies single_line(#[trigger] ls[k]) by {
            assert(single_line(p[k]));
            assert(raw[k] == p[k]);
            assert(ls[k] == trim_cr(raw[k]));
            let t = trim_cr(raw[k]);
            assert forall|j: int| 0 <= j < t.len() implies t[j] != newline() by {
                assert(t[j] == raw[k][j]);
            }
        }
    }
    lemma_filter_single(ls);
    let kept = ls.filter(|l: Seq<u8>| keep_line(l));
    lemma_pieces_join(kept);
    assert(kept.push(Seq::empty()).drop_last() =~= kept);
}

/// No artifact line survives the post-pass.
pub proof fn lemma_strip_drops_artifacts(text: Seq<u8>)
    ensures
        forall|k: int|
            0 <= k < raw_lines(stripped(text)).len() ==> !is_artifact(#[trigger] raw_lines(stripped(text))[k]),
{
    lemma_strip_keeps_valid_lines(text);
    lines_of(text).filter_lemma(|l: Seq<u8>| keep_line(l));
}

} // verus!
