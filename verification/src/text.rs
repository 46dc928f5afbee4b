//! Tokenization of body text: lines split on the line-break byte, and each
//! line split into alternating word and delimiter segments.

use vstd::prelude::*;

verus! {

/// The bytes that separate words inside a line: space, period, comma.
pub open spec fn is_delim(b: u8) -> bool {
    b == 32 || b == 46 || b == 44
}

/// One piece of a tokenized line: the text between two delimiters (possibly
/// empty), or one delimiter byte.
#[derive(Debug, Clone, PartialEq, Eq)]
pub enum Segment {
    Word(Vec<u8>),
    Delim(u8),
}

/// The mathematical value of a `Segment`.
pub enum SegView {
    Word(Seq<u8>),
    Delim(u8),
}

impl View for Segment {
    type V = SegView;

    open spec fn view(&self) -> SegView {
        match self {
            Segment::Word(w) => SegView::Word(w@),
            Segment::Delim(d) => SegView::Delim(*d),
        }
    }
}

/// The text a segment stands for: the word itself, or the delimiter byte.
pub open spec fn seg_text(s: SegView) -> Seq<u8> {
    match s {
        SegView::Word(w) => w,
        SegView::Delim(d) => seq![d],
    }
}

/// The concatenation of the text of all segments, in order.
pub open spec fn segs_concat(segs: Seq<SegView>) -> Seq<u8>
    decreases segs.len(),
{
    if segs.len() == 0 {
        Seq::empty()
    } else {
        seg_text(segs[0]) + segs_concat(segs.drop_first())
    }
}

/// Tokenization of `rest`, given that the bytes of `cur` (none of them
/// delimiters) have been scanned since the last delimiter. On a delimiter,
/// the scanned word is emitted even when empty; the trailing word after the
/// last delimiter is emitted only when non-empty.
pub open spec fn spec_tokenize_from(cur: Seq<u8>, rest: Seq<u8>) -> Seq<SegView>
    decreases rest.len(),
{
    if rest.len() == 0 {
        if cur.len() > 0 {
            seq![SegView::Word(cur)]
        } else {
            Seq::empty()
        }
    } else if is_delim(rest[0]) {
        seq![SegView::Word(cur), SegView::Delim(rest[0])]
            + spec_tokenize_from(Seq::empty(), rest.drop_first())
    } else {
        spec_tokenize_from(cur + seq![rest[0]], rest.drop_first())
    }
}

/// The segments of one line: a left-to-right scan that emits the slice before
/// each delimiter (even if empty) and the delimiter itself, then the trailing
/// slice if non-empty.
pub open spec fn spec_tokenize(line: Seq<u8>) -> Seq<SegView> {
    spec_tokenize_from(Seq::empty(), line)
}

proof fn lemma_segs_concat_prepend(pre: Seq<SegView>, rest: Seq<SegView>)
    ensures
        segs_concat(pre + rest) == segs_concat(pre) + segs_concat(rest),
    decreases pre.len(),
{
    if pre.len() == 0 {
        assert(pre + rest =~= rest);
        assert(segs_concat(pre) + segs_concat(rest) =~= segs_concat(rest));
    } else {
        lemma_segs_concat_prepend(pre.drop_first(), rest);
        assert((pre + rest).drop_first() =~= pre.drop_first() + rest);
        assert(seg_text(pre[0]) + (segs_concat(pre.drop_first()) + segs_concat(rest))
            =~= (seg_text(pre[0]) + segs_concat(pre.drop_first())) + segs_concat(rest));
    }
}

proof fn lemma_tokenize_from_concat(cur: Seq<u8>, rest: Seq<u8>)
    ensures
        segs_concat(spec_tokenize_from(cur, rest)) == cur + rest,
    decreases rest.len(),
{
    if rest.len() == 0 {
        if cur.len() > 0 {
            let s = seq![SegView::Word(cur)];
            assert(s.drop_first() =~= Seq::<SegView>::empty());
            assert(segs_concat(s.drop_first()) == Seq::<u8>::empty());
            assert(segs_concat(s) =~= cur + rest);
        } else {
            assert(Seq::<u8>::empty() =~= cur + rest);
        }
    } else if is_delim(rest[0]) {
        lemma_tokenize_from_concat(Seq::empty(), rest.drop_first());
        let pre = seq![SegView::Word(cur), SegView::Delim(rest[0])];
        lemma_segs_concat_prepend(pre, spec_tokenize_from(Seq::empty(), rest.drop_first()));
        let tail = pre.drop_first();
        assert(tail =~= seq![SegView::Delim(rest[0])]);
        assert(tail.drop_first() =~= Seq::<SegView>::empty());
        assert(segs_concat(tail.drop_first()) == Seq::<u8>::empty());
        assert(segs_concat(tail) =~= seq![rest[0]]);
        assert(segs_concat(pre) =~= cur + seq![rest[0]]);
        assert(Seq::<u8>::empty() + rest.drop_first() =~= rest.drop_first());
        assert((cur + seq![rest[0]]) + rest.drop_first() =~= cur + rest);
    } else {
        lemma_tokenize_from_concat(cur + seq![rest[0]], rest.drop_first());
        assert((cur + seq![rest[0]]) + rest.drop_first() =~= cur + rest);
    }
}

/// Tokenizer correctness: concatenating the text of all emitted segments, in
/// order, reproduces the original line exactly.
pub proof fn lemma_tokenize_concat(line: Seq<u8>)
    ensures
        segs_concat(spec_tokenize(line)) == line,
{
    lemma_tokenize_from_concat(Seq::empty(), line);
    assert(Seq::<u8>::empty() + line =~= line);
}

/// The line-break byte that separates the rows of a body.
pub open spec fn is_line_break(b: u8) -> bool {
    b == 10
}

/// Line splitting of `rest`, given that the bytes of `cur` (no line breaks
/// among them) have been scanned since the last line break. Unlike word
/// tokenization, the trailing slice is always emitted, even when empty, so a
/// body always has at least one line.
pub open spec fn spec_lines_from(cur: Seq<u8>, rest: Seq<u8>) -> Seq<Seq<u8>>
    decreases rest.len(),
{
    if rest.len() == 0 {
        seq![cur]
    } else if is_line_break(rest[0]) {
        seq![cur] + spec_lines_from(Seq::empty(), rest.drop_first())
    } else {
        spec_lines_from(cur + seq![rest[0]], rest.drop_first())
    }
}

/// The lines of a body: the slices between line-break bytes, in order,
/// empty slices included.
pub open spec fn spec_lines(body: Seq<u8>) -> Seq<Seq<u8>> {
    spec_lines_from(Seq::empty(), body)
}

/// Split a body into its lines at each line-break byte; consecutive breaks
/// yield empty lines, and the trailing slice is kept even when empty.
pub fn split_lines(body: &[u8]) -> (lines: Vec<Vec<u8>>)
    ensures
        lines@.map_values(|l: Vec<u8>| l@) == spec_lines(body@),
{
    let ghost whole = spec_lines(body@);
    let mut lines: Vec<Vec<u8>> = Vec::new();
    let mut cur: Vec<u8> = Vec::new();
    let mut i: usize = 0;
    proof {
        assert(lines@.map_values(|l: Vec<u8>| l@) =~= Seq::<Seq<u8>>::empty());
        assert(body@.skip(0) =~= body@);
        assert(Seq::<Seq<u8>>::empty() + spec_lines_from(cur@, body@) =~= whole);
    }
    while i < body.len()
        invariant
            0 <= i <= body@.len(),
            lines@.map_values(|l: Vec<u8>| l@) + spec_lines_from(cur@, body@.skip(i as int))
                == whole,
        decreases body@.len() - i,
    {
        let ghost rest = body@.skip(i as int);
        let b = body[i];
        assert(rest[0] == b);
        assert(rest.drop_first() =~= body@.skip(i + 1));
        if b == 10 {
            let ghost old_lines = lines@;
            let ghost old_cur = cur@;
            lines.push(cur);
            cur = Vec::new();
            proof {
                assert(lines@.map_values(|l: Vec<u8>| l@)
                    =~= old_lines.map_values(|l: Vec<u8>| l@) + seq![old_cur]);
                assert(lines@.map_values(|l: Vec<u8>| l@)
                        + spec_lines_from(Seq::empty(), body@.skip(i + 1))
                    =~= old_lines.map_values(|l: Vec<u8>| l@)
                        + (seq![old_cur] + spec_lines_from(Seq::empty(), body@.skip(i + 1))));
            }
        } else {
            let ghost old_cur = cur@;
            cur.push(b);
            proof {
                assert(cur@ =~= old_cur + seq![b]);
            }
        }
        i = i + 1;
    }
    assert(body@.skip(i as int) =~= Seq::<u8>::empty());
    let ghost old_lines = lines@;
    let ghost old_cur = cur@;
    lines.push(cur);
    proof {
        assert(lines@.map_values(|l: Vec<u8>| l@)
            =~= old_lines.map_values(|l: Vec<u8>| l@) + seq![old_cur]);
    }
    lines
}

/// Split one line into alternating word and delimiter segments: the slice
/// before each delimiter is emitted even when empty, the delimiter itself is
/// kept as a segment of its own, and the trailing slice is emitted only when
/// non-empty.
pub fn tokenize(line: &[u8]) -> (segs: Vec<Segment>)
    ensures
        segs@.map_values(|s: Segment| s@) == spec_tokenize(line@),
        segs_concat(segs@.map_values(|s: Segment| s@)) == line@,
{
    let ghost whole = spec_tokenize(line@);
    let mut segs: Vec<Segment> = Vec::new();
    let mut cur: Vec<u8> = Vec::new();
    let mut i: usize = 0;
    proof {
        assert(segs@.map_values(|s: Segment| s@) =~= Seq::<SegView>::empty());
        assert(line@.skip(0) =~= line@);
        assert(Seq::<SegView>::empty() + spec_tokenize_from(cur@, line@) =~= whole);
    }
    while i < line.len()
        invariant
            0 <= i <= line@.len(),
            segs@.map_values(|s: Segment| s@) + spec_tokenize_from(cur@, line@.skip(i as int))
                == whole,
        decreases line@.len() - i,
    {
        let ghost rest = line@.skip(i as int);
        let b = line[i];
        assert(rest[0] == b);
        assert(rest.drop_first() =~= line@.skip(i + 1));
        if b == 32 || b == 46 || b == 44 {
            let ghost old_segs = segs@;
            let ghost old_cur = cur@;
            segs.push(Segment::Word(cur));
            segs.push(Segment::Delim(b));
            cur = Vec::new();
            proof {
                assert(segs@.map_values(|s: Segment| s@)
                    =~= old_segs.map_values(|s: Segment| s@)
                        + seq![SegView::Word(old_cur), SegView::Delim(b)]);
                assert(segs@.map_values(|s: Segment| s@)
                        + spec_tokenize_from(Seq::empty(), line@.skip(i + 1))
                    =~= old_segs.map_values(|s: Segment| s@)
                        + (seq![SegView::Word(old_cur), SegView::Delim(b)]
                            + spec_tokenize_from(Seq::empty(), line@.skip(i + 1))));
            }
        } else {
            let ghost old_cur = cur@;
            cur.push(b);
            proof {
                assert(cur@ =~= old_cur + seq![b]);
            }
        }
        i = i + 1;
    }
    assert(line@.skip(i as int) =~= Seq::<u8>::empty());
    if cur.len() > 0 {
        let ghost old_segs = segs@;
        let ghost old_cur = cur@;
        segs.push(Segment::Word(cur));
        proof {
            assert(segs@.map_values(|s: Segment| s@)
                =~= old_segs.map_values(|s: Segment| s@) + seq![SegView::Word(old_cur)]);
        }
    } else {
        proof {
            assert(segs@.map_values(|s: Segment| s@) + Seq::<SegView>::empty()
                =~= segs@.map_values(|s: Segment| s@));
        }
    }
    proof {
        lemma_tokenize_concat(line@);
    }
    segs
}

} // verus!
