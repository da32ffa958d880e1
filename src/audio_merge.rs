//! How synthesized parts become one audio file: a single part is copied;
//! several are concatenated, without re-encoding, with one second of
//! silence between consecutive parts.

use vstd::prelude::*;
use crate::text::{push_text, string_of};

verus! {

broadcast use vstd::string::group_string_axioms;

/// Seconds of silence put between consecutive parts.
pub const SILENCE_SECS: u64 = 1;

/// Why parts could not be merged.
#[derive(Clone, Copy, Debug, PartialEq, Eq, Structural)]
pub enum MergeError {
    /// There was nothing to merge.
    NoInputs,
}

/// How the parts are merged.
#[derive(Clone, Copy, Debug, PartialEq, Eq, Structural)]
pub enum MergeMethod {
    /// One part: copied to the output as it is.
    Copy,
    /// Several parts: concatenated with silence between them.
    ConcatWithSilence,
}

/// How `n_inputs` parts are merged.
pub fn merge_method(n_inputs: usize) -> (r: Result<MergeMethod, MergeError>)
    ensures
        r == if n_inputs == 0 {
            Err(MergeError::NoInputs)
        } else if n_inputs == 1 {
            Ok(MergeMethod::Copy)
        } else {
            Ok::<MergeMethod, MergeError>(MergeMethod::ConcatWithSilence)
        },
{
    if n_inputs == 0 {
        Err(MergeError::NoInputs)
    } else if n_inputs == 1 {
        Ok(MergeMethod::Copy)
    } else {
        Ok(MergeMethod::ConcatWithSilence)
    }
}

/// The files to concatenate, in order: each input, with `silence` between
/// consecutive inputs.
pub open spec fn concat_entries(inputs: Seq<Seq<char>>, silence: Seq<char>) -> Seq<Seq<char>>
    decreases inputs.len(),
{
    if inputs.len() <= 1 {
        inputs
    } else {
        concat_entries(inputs.drop_last(), silence) + seq![silence, inputs.last()]
    }
}

/// The list that the merge tool reads: a line `file '<path>'` per entry.
pub open spec fn concat_list_text(entries: Seq<Seq<char>>) -> Seq<char>
    decreases entries.len(),
{
    if entries.len() == 0 {
        Seq::empty()
    } else {
        concat_list_text(entries.drop_last()) + "file '"@ + entries.last() + "'\n"@
    }
}

/// The files to concatenate for `inputs`, with `silence` between each two.
pub fn concat_entries_of(inputs: &Vec<String>, silence: &str) -> (r: Vec<String>)
    ensures
        r.deep_view() == concat_entries(inputs.deep_view(), silence@),
{
    let ghost ins = inputs.deep_view();
    let mut r: Vec<String> = Vec::new();
    let mut i: usize = 0;
    while i < inputs.len()
        invariant
            i <= inputs@.len(),
            ins == inputs.deep_view(),
            r.deep_view() == concat_entries(ins.take(i as int), silence@),
        decreases inputs@.len() - i,
    {
        let ghost before = r.deep_view();
        let ghost t = ins.take(i + 1);
        assert(t.drop_last() =~= ins.take(i as int));
        assert(t.last() == inputs@[i as int]@);
        if i > 0 {
            r.push(silence.to_owned());
        }
        r.push(inputs[i].clone());
        if i == 0 {
            assert(r.deep_view() =~= t);
        } else {
            assert(r.deep_view() =~= before + seq![silence@, t.last()]);
        }
        i += 1;
    }
    assert(ins.take(inputs@.len() as int) =~= ins);
    r
}

/// The text of the list file for `entries`.
pub fn concat_list(entries: &Vec<String>) -> (r: String)
    ensures
        r@ == concat_list_text(entries.deep_view()),
{
    let ghost es = entries.deep_view();
    let mut out: Vec<char> = Vec::new();
    let mut i: usize = 0;
    while i < entries.len()
        invariant
            i <= entries@.len(),
            es == entries.deep_view(),
            out@ == concat_list_text(es.take(i as int)),
        decreases entries@.len() - i,
    {
        let ghost before = out@;
        push_text(&mut out, "file '");
        push_text(&mut out, entries[i].as_str());
        push_text(&mut out, "'\n");
        assert(es.take(i + 1).drop_last() =~= es.take(i as int));
        assert(es.take(i + 1).last() == entries@[i as int]@);
        i += 1;
    }
    assert(es.take(entries@.len() as int) =~= es);
    string_of(out.as_slice())
}

/// Silence stands only between parts: the entries alternate part, silence,
/// part, ..., starting and ending with a part, so `n` parts get `n - 1`
/// silences, none before the first part or after the last.
pub proof fn lemma_silence_between(inputs: Seq<Seq<char>>, silence: Seq<char>)
    requires
        inputs.len() >= 1,
    ensures
        concat_entries(inputs, silence).len() == 2 * inputs.len() - 1,
        forall|i: int|
            0 <= i < inputs.len() ==> #[trigger] concat_entries(inputs, silence)[2 * i]
                == inputs[i],
        forall|i: int|
            0 <= i < inputs.len() - 1 ==> #[trigger] concat_entries(inputs, silence)[2 * i + 1]
                == silence,
    decreases inputs.len(),
{
    if inputs.len() > 1 {
        let init = inputs.drop_last();
        lemma_silence_between(init, silence);
        let e = concat_entries(inputs, silence);
        let e0 = concat_entries(init, silence);
        assert forall|i: int| 0 <= i < inputs.len() implies #[trigger] e[2 * i] == inputs[i] by {
            if i < inputs.len() - 1 {
                assert(e[2 * i] == e0[2 * i]);
                assert(init[i] == inputs[i]);
            }
        }
        assert forall|i: int| 0 <= i < inputs.len() - 1 implies #[trigger] e[2 * i + 1]
            == silence by {
            if i < inputs.len() - 2 {
                assert(e[2 * i + 1] == e0[2 * i + 1]);
            }
        }
    }
}

} // verus!
