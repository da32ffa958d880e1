//! What holds of every split: the chunks fit the budget, keep every
//! character that is not white space in order, rebuild text without white
//! space exactly, and split again into themselves.

use vstd::prelude::*;
use vstd::seq_lib::lemma_flatten_concat;
use crate::text::{
    has_no_white_space, is_white_space, lemma_non_white_of_white, lemma_non_white_trim,
    lemma_trim_no_white, non_white, trim,
};
use crate::text_splitter::{
    is_break_point, last_break, lemma_last_break, long_pieces, long_scan, pack, pack_step,
    sentence_scan, sentences, split_chunks, trim_all,
};

verus! {

broadcast use {Seq::filter_distributes_over_add, Seq::lemma_flatten_push};

proof fn lemma_concat_no_white(a: Seq<char>, b: Seq<char>)
    requires
        has_no_white_space(a),
        has_no_white_space(b),
    ensures
        has_no_white_space(a + b),
{
    assert forall|i: int| 0 <= i < (a + b).len() implies !is_white_space(#[trigger] (a + b)[i]) by {
        if i >= a.len() {
            assert((a + b)[i] == b[i - a.len()]);
        }
    }
}

proof fn lemma_split_no_white(a: Seq<char>, b: Seq<char>)
    requires
        has_no_white_space(a + b),
    ensures
        has_no_white_space(a),
        has_no_white_space(b),
{
    assert forall|i: int| 0 <= i < a.len() implies !is_white_space(#[trigger] a[i]) by {
        assert(a[i] == (a + b)[i]);
    }
    assert forall|i: int| 0 <= i < b.len() implies !is_white_space(#[trigger] b[i]) by {
        assert(b[i] == (a + b)[a.len() + i]);
    }
}

proof fn lemma_flatten_no_white(q: Seq<Seq<char>>)
    requires
        has_no_white_space(q.flatten()),
    ensures
        forall|i: int| 0 <= i < q.len() ==> has_no_white_space(#[trigger] q[i]),
    decreases q.len(),
{
    if q.len() > 0 {
        assert(q.flatten() == q.first() + q.drop_first().flatten());
        lemma_split_no_white(q.first(), q.drop_first().flatten());
        lemma_flatten_no_white(q.drop_first());
        assert forall|i: int| 0 <= i < q.len() implies has_no_white_space(#[trigger] q[i]) by {
            if i > 0 {
                assert(q[i] == q.drop_first()[i - 1]);
            }
        }
    }
}

proof fn lemma_sentence_scan(s: Seq<char>)
    ensures
        sentence_scan(s).0.flatten() + sentence_scan(s).1 == s,
    decreases s.len(),
{
    if s.len() == 0 {
        assert(Seq::<Seq<char>>::empty().flatten() + Seq::<char>::empty() =~= s);
    } else {
        lemma_sentence_scan(s.drop_last());
        let (done, open) = sentence_scan(s.drop_last());
        let open2 = open.push(s.last());
        assert(s =~= s.drop_last().push(s.last()));
        assert(done.flatten() + open2 =~= (done.flatten() + open).push(s.last()));
        assert(done.push(open2).flatten() + Seq::<char>::empty() =~= s);
    }
}

proof fn lemma_sentences(s: Seq<char>)
    ensures
        non_white(sentences(s).flatten()) == non_white(s),
        has_no_white_space(s) ==> sentences(s).flatten() == s,
{
    lemma_sentence_scan(s);
    let (done, open) = sentence_scan(s);
    if trim(open).len() > 0 {
        assert(done.push(open).flatten() == s);
    } else {
        lemma_non_white_trim(open);
        assert(non_white(s) == non_white(done.flatten()) + non_white(open));
        assert(non_white(s) =~= non_white(done.flatten()));
        if has_no_white_space(s) {
            lemma_split_no_white(done.flatten(), open);
            lemma_trim_no_white(open);
            assert(done.flatten() =~= s);
        }
    }
}

proof fn lemma_long_scan(s: Seq<char>, max: int)
    requires
        max > 0,
    ensures
        long_scan(s, max).0.flatten() + long_scan(s, max).1 == s,
        forall|i: int|
            0 <= i < long_scan(s, max).0.len() ==> (#[trigger] long_scan(s, max).0[i]).len()
                <= max,
        long_scan(s, max).1.len() < max,
    decreases s.len(),
{
    if s.len() == 0 {
        assert(Seq::<Seq<char>>::empty().flatten() + Seq::<char>::empty() =~= s);
    } else {
        lemma_long_scan(s.drop_last(), max);
        let (done, open) = long_scan(s.drop_last(), max);
        let c = s.last();
        let open2 = open.push(c);
        assert(s =~= s.drop_last().push(c));
        assert(done.flatten() + open2 =~= (done.flatten() + open).push(c));
        if open2.len() < max {
        } else if is_break_point(c) {
            assert(done.push(open2).flatten() + Seq::<char>::empty() =~= s);
        } else {
            lemma_last_break(open2);
            match last_break(open2) {
                Some(p) => {
                    assert(done.push(open2.take(p + 1)).flatten() + open2.skip(p + 1) =~= s);
                },
                None => {
                    assert(done.push(open2).flatten() + Seq::<char>::empty() =~= s);
                },
            }
        }
    }
}

proof fn lemma_long_pieces(s: Seq<char>, max: int)
    requires
        max > 0,
    ensures
        non_white(long_pieces(s, max).flatten()) == non_white(s),
        forall|i: int|
            0 <= i < long_pieces(s, max).len() ==> (#[trigger] long_pieces(s, max)[i]).len()
                <= max,
        has_no_white_space(s) ==> long_pieces(s, max).flatten() == s,
{
    lemma_long_scan(s, max);
    let (done, open) = long_scan(s, max);
    if trim(open).len() > 0 {
        assert(done.push(open).flatten() == s);
    } else {
        lemma_non_white_trim(open);
        assert(non_white(s) == non_white(done.flatten()) + non_white(open));
        assert(non_white(s) =~= non_white(done.flatten()));
        if has_no_white_space(s) {
            lemma_split_no_white(done.flatten(), open);
            lemma_trim_no_white(open);
            assert(done.flatten() =~= s);
        }
    }
}

proof fn lemma_trim_all(q: Seq<Seq<char>>)
    ensures
        non_white(trim_all(q).flatten()) == non_white(q.flatten()),
        forall|i: int| 0 <= i < q.len() ==> (#[trigger] trim_all(q)[i]).len() <= q[i].len(),
        (forall|i: int| 0 <= i < q.len() ==> has_no_white_space(#[trigger] q[i])) ==> trim_all(q)
            == q,
    decreases q.len(),
{
    assert forall|i: int| 0 <= i < q.len() implies (#[trigger] trim_all(q)[i]).len()
        <= q[i].len() by {
        lemma_non_white_trim(q[i]);
    }
    if q.len() > 0 {
        let init = q.drop_last();
        lemma_trim_all(init);
        assert(trim_all(q) =~= trim_all(init).push(trim(q.last())));
        assert(q =~= init.push(q.last()));
        lemma_non_white_trim(q.last());
        assert(non_white(trim_all(q).flatten()) == non_white(trim_all(init).flatten()) + non_white(
            trim(q.last()),
        ));
        assert(non_white(q.flatten()) == non_white(init.flatten()) + non_white(q.last()));
        if forall|i: int| 0 <= i < q.len() ==> has_no_white_space(#[trigger] q[i]) {
            assert forall|i: int| 0 <= i < q.len() implies trim_all(q)[i] == q[i] by {
                lemma_trim_no_white(q[i]);
            }
            assert(trim_all(q) =~= q);
        }
    } else {
        assert(trim_all(q) =~= q);
    }
}

/// The running state of packing: closed chunks fit `max`, the running chunk
/// fits `max`, and the non-white characters of the sentences read so far
/// are all there.
proof fn lemma_pack(sents: Seq<Seq<char>>, max: int)
    requires
        max > 0,
    ensures
        non_white(pack(sents, max).0.flatten() + pack(sents, max).1) == non_white(
            sents.flatten(),
        ),
        forall|i: int|
            0 <= i < pack(sents, max).0.len() ==> (#[trigger] pack(sents, max).0[i]).len() <= max,
        pack(sents, max).1.len() <= max,
        (forall|i: int| 0 <= i < sents.len() ==> has_no_white_space(#[trigger] sents[i])) ==> {
            &&& pack(sents, max).0.flatten() + pack(sents, max).1 == sents.flatten()
            &&& has_no_white_space(pack(sents, max).1)
        },
    decreases sents.len(),
{
    if sents.len() == 0 {
        assert(Seq::<Seq<char>>::empty().flatten() + Seq::<char>::empty() =~= sents.flatten());
        return;
    }
    let init = sents.drop_last();
    let x = sents.last();
    lemma_pack(init, max);
    let (chunks, open) = pack(init, max);
    assert(sents =~= init.push(x));
    assert(sents.flatten() == init.flatten() + x);
    let clean = forall|i: int| 0 <= i < sents.len() ==> has_no_white_space(#[trigger] sents[i]);
    if clean {
        assert forall|i: int| 0 <= i < init.len() implies has_no_white_space(#[trigger] init[i]) by {
            assert(init[i] == sents[i]);
        }
        assert(has_no_white_space(sents[sents.len() - 1]));
    }
    assert(pack(sents, max) == pack_step((chunks, open), x, max));
    if open.len() + x.len() <= max {
        assert(chunks.flatten() + (open + x) =~= (chunks.flatten() + open) + x);
        assert(non_white(chunks.flatten() + (open + x)) == non_white(chunks.flatten() + open)
            + non_white(x));
        if clean {
            lemma_concat_no_white(open, x);
        }
    } else {
        let chunks1 = if open.len() > 0 {
            chunks.push(trim(open))
        } else {
            chunks
        };
        lemma_non_white_trim(open);
        assert(non_white(chunks1.flatten()) == non_white(chunks.flatten() + open)) by {
            assert(non_white(chunks.flatten() + open) == non_white(chunks.flatten()) + non_white(
                open,
            ));
            if open.len() > 0 {
                assert(non_white(chunks1.flatten()) == non_white(chunks.flatten()) + non_white(
                    trim(open),
                ));
            } else {
                assert(open =~= Seq::<char>::empty());
                assert(chunks.flatten() + open =~= chunks.flatten());
            }
        }
        assert(forall|i: int| 0 <= i < chunks1.len() ==> (#[trigger] chunks1[i]).len() <= max);
        if clean {
            lemma_trim_no_white(open);
            if open.len() > 0 {
                assert(chunks1.flatten() == chunks.flatten() + open);
            } else {
                assert(chunks.flatten() + open =~= chunks.flatten());
            }
            assert(chunks1.flatten() == chunks.flatten() + open);
        }
        if x.len() <= max {
            assert(non_white(chunks1.flatten() + x) == non_white(chunks1.flatten()) + non_white(x));
        } else {
            let pieces = long_pieces(x, max);
            lemma_long_pieces(x, max);
            if pieces.len() == 0 {
                lemma_non_white_of_white(Seq::<char>::empty());
                assert(non_white(x) == non_white(Seq::<Seq<char>>::empty().flatten()));
                assert(chunks1.flatten() + Seq::<char>::empty() =~= chunks1.flatten());
                assert(non_white(chunks1.flatten()) + non_white(x) =~= non_white(chunks1.flatten()));
                if clean {
                    assert(pieces.flatten() =~= Seq::<char>::empty());
                    assert(chunks1.flatten() + x =~= chunks1.flatten());
                }
            } else {
                let front = pieces.drop_last();
                let last = pieces.last();
                assert(pieces =~= front.push(last));
                assert(pieces.flatten() == front.flatten() + last);
                lemma_trim_all(front);
                lemma_flatten_concat(chunks1, trim_all(front));
                let chunks2 = chunks1 + trim_all(front);
                assert(non_white(chunks2.flatten() + last) == non_white(chunks1.flatten())
                    + non_white(trim_all(front).flatten()) + non_white(last));
                assert(non_white(x) == non_white(front.flatten()) + non_white(last));
                assert(non_white(chunks2.flatten() + last) =~= non_white(chunks1.flatten())
                    + non_white(x));
                assert forall|i: int| 0 <= i < chunks2.len() implies (#[trigger] chunks2[i]).len()
                    <= max by {
                    if i >= chunks1.len() {
                        assert(chunks2[i] == trim_all(front)[i - chunks1.len()]);
                        assert(front[i - chunks1.len()] == pieces[i - chunks1.len()]);
                    }
                }
                assert(last == pieces[pieces.len() - 1]);
                if clean {
                    lemma_flatten_no_white(pieces);
                    assert forall|i: int| 0 <= i < front.len() implies has_no_white_space(
                        #[trigger] front[i],
                    ) by {
                        assert(front[i] == pieces[i]);
                    }
                    assert(chunks2.flatten() + last =~= chunks1.flatten() + x);
                }
            }
        }
    }
}

/// Text that fits the budget is one chunk: the text itself.
pub proof fn lemma_short_text_is_one_chunk(s: Seq<char>, max: int)
    requires
        s.len() <= max,
    ensures
        split_chunks(s, max) == seq![s],
{
}

/// Every chunk holds at most `max` characters.
pub proof fn lemma_chunks_fit(s: Seq<char>, max: int)
    requires
        max > 0,
    ensures
        forall|i: int|
            0 <= i < split_chunks(s, max).len() ==> (#[trigger] split_chunks(s, max)[i]).len()
                <= max,
{
    if s.len() > max {
        lemma_pack(sentences(s), max);
        lemma_non_white_trim(pack(sentences(s), max).1);
    }
}

/// The chunks, joined, hold the characters of the text that are not white
/// space, in order: splitting adds and loses nothing but white space.
pub proof fn lemma_chunks_keep_text(s: Seq<char>, max: int)
    requires
        max > 0,
    ensures
        non_white(split_chunks(s, max).flatten()) == non_white(s),
{
    if s.len() <= max {
        seq![s].lemma_flatten_one_element();
    } else {
        let sents = sentences(s);
        lemma_sentences(s);
        lemma_pack(sents, max);
        let (chunks, open) = pack(sents, max);
        lemma_non_white_trim(open);
        assert(non_white(chunks.flatten() + open) == non_white(chunks.flatten()) + non_white(
            open,
        ));
        if trim(open).len() > 0 {
            assert(non_white(chunks.push(trim(open)).flatten()) == non_white(chunks.flatten())
                + non_white(trim(open)));
        } else {
            assert(non_white(chunks.flatten()) + non_white(open) =~= non_white(chunks.flatten()));
        }
    }
}

/// Text without white space, such as text delimited by sentence-ending
/// punctuation alone, is rebuilt exactly by joining its chunks.
pub proof fn lemma_chunks_rejoin(s: Seq<char>, max: int)
    requires
        max > 0,
        has_no_white_space(s),
    ensures
        split_chunks(s, max).flatten() == s,
{
    if s.len() <= max {
        seq![s].lemma_flatten_one_element();
    } else {
        let sents = sentences(s);
        lemma_sentences(s);
        lemma_flatten_no_white(sents);
        lemma_pack(sents, max);
        let (chunks, open) = pack(sents, max);
        lemma_trim_no_white(open);
        if trim(open).len() == 0 {
            assert(open =~= Seq::<char>::empty());
            assert(chunks.flatten() + open =~= chunks.flatten());
        }
    }
}

/// Splitting a chunk again gives that chunk alone: the split of text that
/// already fits is the text, and every chunk fits.
pub proof fn lemma_split_idempotent(s: Seq<char>, max: int)
    requires
        max > 0,
    ensures
        forall|i: int|
            0 <= i < split_chunks(s, max).len() ==> split_chunks(
                #[trigger] split_chunks(s, max)[i],
                max,
            ) == seq![split_chunks(s, max)[i]],
{
    lemma_chunks_fit(s, max);
}

} // verus!
