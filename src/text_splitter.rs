//! Splitting long text into pieces that the engine accepts in one request.
//!
//! Text that fits the budget is kept whole. Longer text is cut into
//! sentences, and the sentences are packed greedily into chunks; a sentence
//! longer than the budget is cut at its last break character before the
//! budget, or hard at the budget where it has none.

use vstd::prelude::*;
use crate::text::{chars_of, slice_chars, string_of, trim, trim_chars, views};

verus! {

/// The largest number of characters that one engine request takes.
pub const MAX_CHARS: usize = 140;

/// Characters that close a sentence.
pub open spec fn is_sentence_end(c: char) -> bool {
    c == '。' || c == '！' || c == '？' || c == '.' || c == '!' || c == '?'
}

/// Characters after which an oversized sentence may be cut.
pub open spec fn is_break_point(c: char) -> bool {
    c == '、' || c == '，' || c == ',' || c == ' ' || c == '　'
}

/// After reading `s` left to right: the sentences closed so far, and the
/// sentence still open.
pub open spec fn sentence_scan(s: Seq<char>) -> (Seq<Seq<char>>, Seq<char>)
    decreases s.len(),
{
    if s.len() == 0 {
        (Seq::empty(), Seq::empty())
    } else {
        let (done, open) = sentence_scan(s.drop_last());
        let open = open.push(s.last());
        if is_sentence_end(s.last()) {
            (done.push(open), Seq::empty())
        } else {
            (done, open)
        }
    }
}

/// The sentences of `s`: each closed one, then the open rest where it holds
/// more than white space.
pub open spec fn sentences(s: Seq<char>) -> Seq<Seq<char>> {
    let (done, open) = sentence_scan(s);
    if trim(open).len() > 0 {
        done.push(open)
    } else {
        done
    }
}

/// The position of the last break character of `s`, if any.
pub open spec fn last_break(s: Seq<char>) -> Option<int>
    decreases s.len(),
{
    if s.len() == 0 {
        None
    } else if is_break_point(s.last()) {
        Some(s.len() - 1)
    } else {
        last_break(s.drop_last())
    }
}

/// After reading the oversized sentence `s`: the pieces cut so far, and the
/// piece still growing. A piece is cut when it reaches `max` characters: at
/// its end if it ends in a break character, else just after its last break
/// character, else hard at `max`.
pub open spec fn long_scan(s: Seq<char>, max: int) -> (Seq<Seq<char>>, Seq<char>)
    decreases s.len(),
{
    if s.len() == 0 {
        (Seq::empty(), Seq::empty())
    } else {
        let (done, open) = long_scan(s.drop_last(), max);
        let c = s.last();
        let open = open.push(c);
        if open.len() < max {
            (done, open)
        } else if is_break_point(c) {
            (done.push(open), Seq::empty())
        } else {
            match last_break(open) {
                Some(p) => (done.push(open.take(p + 1)), open.skip(p + 1)),
                None => (done.push(open), Seq::empty()),
            }
        }
    }
}

/// The pieces of an oversized sentence: those cut, then the rest where it
/// holds more than white space.
pub open spec fn long_pieces(s: Seq<char>, max: int) -> Seq<Seq<char>> {
    let (done, open) = long_scan(s, max);
    if trim(open).len() > 0 {
        done.push(open)
    } else {
        done
    }
}

/// Trims every piece.
pub open spec fn trim_all(pieces: Seq<Seq<char>>) -> Seq<Seq<char>> {
    pieces.map_values(|p: Seq<char>| trim(p))
}

/// One packing step: the chunks so far and the running chunk, then the next
/// sentence. The sentence joins the running chunk where both fit in `max`;
/// else the running chunk is closed (trimmed) and the sentence starts the
/// next one, cut first into pieces if it is itself too long (all pieces but
/// the last become chunks, the last starts the running chunk).
pub open spec fn pack_step(
    state: (Seq<Seq<char>>, Seq<char>),
    sentence: Seq<char>,
    max: int,
) -> (Seq<Seq<char>>, Seq<char>) {
    let (chunks, open) = state;
    if open.len() + sentence.len() <= max {
        (chunks, open + sentence)
    } else {
        let chunks = if open.len() > 0 {
            chunks.push(trim(open))
        } else {
            chunks
        };
        if sentence.len() <= max {
            (chunks, sentence)
        } else {
            let pieces = long_pieces(sentence, max);
            if pieces.len() == 0 {
                (chunks, Seq::empty())
            } else {
                (chunks + trim_all(pieces.drop_last()), pieces.last())
            }
        }
    }
}

/// Packs the sentences `sents` in order.
pub open spec fn pack(sents: Seq<Seq<char>>, max: int) -> (Seq<Seq<char>>, Seq<char>)
    decreases sents.len(),
{
    if sents.len() == 0 {
        (Seq::empty(), Seq::empty())
    } else {
        pack_step(pack(sents.drop_last(), max), sents.last(), max)
    }
}

/// The chunks of `s` for a budget of `max` characters.
pub open spec fn split_chunks(s: Seq<char>, max: int) -> Seq<Seq<char>> {
    if s.len() <= max {
        seq![s]
    } else {
        let (chunks, open) = pack(sentences(s), max);
        if trim(open).len() > 0 {
            chunks.push(trim(open))
        } else {
            chunks
        }
    }
}

/// A break position found is that of a break character, with none after it.
pub proof fn lemma_last_break(s: Seq<char>)
    ensures
        match last_break(s) {
            Some(p) => 0 <= p < s.len() && is_break_point(s[p]) && forall|j: int|
                p < j < s.len() ==> !is_break_point(#[trigger] s[j]),
            None => forall|j: int| 0 <= j < s.len() ==> !is_break_point(#[trigger] s[j]),
        },
    decreases s.len(),
{
    if s.len() > 0 && !is_break_point(s.last()) {
        let t = s.drop_last();
        lemma_last_break(t);
        match last_break(t) {
            Some(p) => {
                assert(s[p] == t[p]);
                assert forall|j: int| p < j < s.len() implies !is_break_point(#[trigger] s[j]) by {
                    if j < s.len() - 1 {
                        assert(s[j] == t[j]);
                    }
                }
            },
            None => {
                assert forall|j: int| 0 <= j < s.len() implies !is_break_point(#[trigger] s[j]) by {
                    if j < s.len() - 1 {
                        assert(s[j] == t[j]);
                    }
                }
            },
        }
    }
}

fn is_sentence_end_char(c: char) -> (r: bool)
    ensures
        r == is_sentence_end(c),
{
    c == '。' || c == '！' || c == '？' || c == '.' || c == '!' || c == '?'
}

fn is_break_point_char(c: char) -> (r: bool)
    ensures
        r == is_break_point(c),
{
    c == '、' || c == '，' || c == ',' || c == ' ' || c == '　'
}

/// Whether `text` fits in one engine request.
pub fn check_text_length(text: &str) -> (r: bool)
    ensures
        r == (text@.len() <= MAX_CHARS),
{
    chars_of(text).len() <= MAX_CHARS
}

/// Cuts `text` into sentences.
fn split_into_sentences(text: &[char]) -> (r: Vec<Vec<char>>)
    ensures
        views(r@) == sentences(text@),
{
    let mut done: Vec<Vec<char>> = Vec::new();
    let mut open: Vec<char> = Vec::new();
    let mut i: usize = 0;
    while i < text.len()
        invariant
            i <= text@.len(),
            sentence_scan(text@.take(i as int)) == (views(done@), open@),
        decreases text@.len() - i,
    {
        let c = text[i];
        assert(text@.take(i + 1).drop_last() =~= text@.take(i as int));
        open.push(c);
        if is_sentence_end_char(c) {
            let ghost before = done@;
            done.push(open);
            open = Vec::new();
            assert(views(done@) =~= views(before).push(views(done@).last()));
        }
        i += 1;
    }
    assert(text@.take(text@.len() as int) =~= text@);
    if trim_chars(&open).len() > 0 {
        let ghost before = done@;
        done.push(open);
        assert(views(done@) =~= views(before).push(views(done@).last()));
    }
    done
}

/// The position of the last break character of `cs`, if any.
fn find_last_break_point(cs: &[char]) -> (r: Option<usize>)
    ensures
        match r {
            Some(p) => last_break(cs@) == Some(p as int),
            None => last_break(cs@) is None,
        },
{
    let mut i: usize = cs.len();
    assert(cs@.take(i as int) =~= cs@);
    while i > 0
        invariant
            i <= cs@.len(),
            last_break(cs@) == last_break(cs@.take(i as int)),
        decreases i,
    {
        assert(cs@.take(i as int).drop_last() =~= cs@.take(i - 1));
        if is_break_point_char(cs[i - 1]) {
            return Some(i - 1);
        }
        i -= 1;
    }
    None
}

/// Cuts a sentence longer than `max` characters into pieces.
fn split_long_sentence(sentence: &[char], max: usize) -> (r: Vec<Vec<char>>)
    requires
        max > 0,
    ensures
        views(r@) == long_pieces(sentence@, max as int),
{
    let mut done: Vec<Vec<char>> = Vec::new();
    let mut open: Vec<char> = Vec::new();
    let mut i: usize = 0;
    while i < sentence.len()
        invariant
            i <= sentence@.len(),
            long_scan(sentence@.take(i as int), max as int) == (views(done@), open@),
            open@.len() <= i,
        decreases sentence@.len() - i,
    {
        let c = sentence[i];
        assert(sentence@.take(i + 1).drop_last() =~= sentence@.take(i as int));
        open.push(c);
        if open.len() >= max {
            let ghost before = done@;
            if is_break_point_char(c) {
                done.push(open);
                open = Vec::new();
            } else {
                let found = find_last_break_point(&open);
                proof {
                    lemma_last_break(open@);
                }
                match found {
                    Some(p) => {
                        let first = slice_chars(&open, 0, p + 1);
                        let second = slice_chars(&open, p + 1, open.len());
                        assert(first@ =~= open@.take(p + 1));
                        assert(second@ =~= open@.skip(p + 1));
                        done.push(first);
                        open = second;
                    },
                    None => {
                        done.push(open);
                        open = Vec::new();
                    },
                }
            }
            assert(views(done@) =~= views(before).push(views(done@).last()));
        }
        i += 1;
    }
    assert(sentence@.take(sentence@.len() as int) =~= sentence@);
    if trim_chars(&open).len() > 0 {
        let ghost before = done@;
        done.push(open);
        assert(views(done@) =~= views(before).push(views(done@).last()));
    }
    done
}

/// Appends the characters `src` to `dst`.
fn append_chars(dst: &mut Vec<char>, src: &[char])
    ensures
        final(dst)@ == old(dst)@ + src@,
{
    let mut i: usize = 0;
    while i < src.len()
        invariant
            i <= src@.len(),
            dst@ == old(dst)@ + src@.take(i as int),
        decreases src@.len() - i,
    {
        dst.push(src[i]);
        assert(old(dst)@ + src@.take(i + 1) =~= (old(dst)@ + src@.take(i as int)).push(src@[i as int]));
        i += 1;
    }
    assert(src@.take(src@.len() as int) =~= src@);
}

/// Packs the sentences `sents` greedily into chunks of at most `max`
/// characters; returns the closed chunks and the running one.
fn pack_sentences(sents: &Vec<Vec<char>>, max: usize) -> (r: (Vec<Vec<char>>, Vec<char>))
    requires
        max > 0,
    ensures
        (views(r.0@), r.1@) == pack(views(sents@), max as int),
{
    let mut chunks: Vec<Vec<char>> = Vec::new();
    let mut open: Vec<char> = Vec::new();
    let mut j: usize = 0;
    while j < sents.len()
        invariant
            max > 0,
            j <= sents@.len(),
            pack(views(sents@).take(j as int), max as int) == (views(chunks@), open@),
        decreases sents@.len() - j,
    {
        let sentence = &sents[j];
        assert(views(sents@).take(j + 1).drop_last() =~= views(sents@).take(j as int));
        assert(views(sents@).take(j + 1).last() == sentence@);
        let ghost state = (views(chunks@), open@);
        if sentence.len() <= max && open.len() <= max - sentence.len() {
            append_chars(&mut open, sentence.as_slice());
        } else {
            if open.len() > 0 {
                let ghost before = chunks@;
                chunks.push(trim_chars(&open));
                open = Vec::new();
                assert(views(chunks@) =~= views(before).push(trim(state.1)));
            }
            if sentence.len() <= max {
                open = slice_chars(sentence.as_slice(), 0, sentence.len());
                assert(open@ =~= sentence@);
            } else {
                let pieces = split_long_sentence(sentence.as_slice(), max);
                let k = pieces.len();
                if k > 0 {
                    let ghost base = views(chunks@);
                    let mut t: usize = 0;
                    while t < k - 1
                        invariant
                            k == pieces@.len() > 0,
                            t <= k - 1,
                            views(chunks@) == base + trim_all(views(pieces@).take(t as int)),
                        decreases k - 1 - t,
                    {
                        let ghost before = chunks@;
                        chunks.push(trim_chars(&pieces[t]));
                        assert(views(chunks@) =~= views(before).push(trim(pieces@[t as int]@)));
                        assert(trim_all(views(pieces@).take(t + 1)) =~= trim_all(
                            views(pieces@).take(t as int),
                        ).push(trim(pieces@[t as int]@)));
                        t += 1;
                    }
                    assert(views(pieces@).take(k - 1) =~= views(pieces@).drop_last());
                    open = slice_chars(&pieces[k - 1], 0, pieces[k - 1].len());
                    assert(open@ =~= views(pieces@).last());
                }
            }
        }
        j += 1;
    }
    assert(views(sents@).take(sents@.len() as int) =~= views(sents@));
    (chunks, open)
}

/// Cuts `text` into chunks of at most `max` characters, as characters.
fn split_chars(text: &[char], max: usize) -> (r: Vec<Vec<char>>)
    requires
        max > 0,
    ensures
        views(r@) == split_chunks(text@, max as int),
{
    if text.len() <= max {
        let mut r: Vec<Vec<char>> = Vec::new();
        let whole = slice_chars(text, 0, text.len());
        assert(whole@ =~= text@);
        r.push(whole);
        assert(views(r@) =~= seq![text@]);
        return r;
    }
    let sents = split_into_sentences(text);
    let (mut chunks, open) = pack_sentences(&sents, max);
    let last = trim_chars(&open);
    if last.len() > 0 {
        let ghost before = chunks@;
        chunks.push(last);
        assert(views(chunks@) =~= views(before).push(trim(open@)));
    }
    chunks
}

/// Cuts `text` into chunks of at most `max_chars` characters each, in
/// reading order: text that fits is one chunk, else sentences are packed
/// greedily and oversized sentences cut at break characters.
pub fn split_text_with_limit(text: &str, max_chars: usize) -> (r: Vec<String>)
    requires
        max_chars > 0,
    ensures
        r.deep_view() == split_chunks(text@, max_chars as int),
{
    let cs = chars_of(text);
    let pieces = split_chars(cs.as_slice(), max_chars);
    let mut r: Vec<String> = Vec::new();
    let mut i: usize = 0;
    while i < pieces.len()
        invariant
            i <= pieces@.len(),
            r.deep_view() == views(pieces@).take(i as int),
        decreases pieces@.len() - i,
    {
        let ghost before = r.deep_view();
        r.push(string_of(pieces[i].as_slice()));
        assert(r.deep_view() =~= before.push(pieces@[i as int]@));
        assert(views(pieces@).take(i + 1) =~= views(pieces@).take(i as int).push(
            pieces@[i as int]@,
        ));
        i += 1;
    }
    assert(views(pieces@).take(pieces@.len() as int) =~= views(pieces@));
    r
}

/// Cuts `text` into chunks that the engine takes in one request each
/// (`MAX_CHARS` characters at most).
pub fn split_text(text: &str) -> (r: Vec<String>)
    ensures
        r.deep_view() == split_chunks(text@, MAX_CHARS as int),
{
    split_text_with_limit(text, MAX_CHARS)
}

} // verus!
