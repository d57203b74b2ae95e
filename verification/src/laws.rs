//! What holds of the recorder across several operations.

use crate::error::EmitError;
use crate::model::{lemma_patched_len, patched, Fault, RecorderModel};
use crate::recorder::resolved_as;
use vstd::prelude::*;

verus! {

/// Appending chunks one after another leaves their concatenation behind
/// what the buffer held, and touches nothing else.
pub proof fn lemma_appends_concatenate(m: RecorderModel, chunks: Seq<Seq<u8>>)
    ensures
        m.append_all(chunks) == (RecorderModel { codes: m.codes + chunks.flatten(), ..m }),
    decreases chunks.len(),
{
    if chunks.len() == 0 {
        assert(m.codes + chunks.flatten() =~= m.codes);
    } else {
        let next = m.append(chunks.first());
        lemma_appends_concatenate(next, chunks.drop_first());
        assert((m.codes + chunks.first()) + chunks.drop_first().flatten() =~= m.codes
            + chunks.flatten());
    }
}

/// A fresh buffer holds exactly the concatenation of what was appended.
pub proof fn lemma_fresh_appends_concatenate(allow_redefinition: bool, chunks: Seq<Seq<u8>>)
    ensures
        RecorderModel::empty(allow_redefinition).append_all(chunks).codes == chunks.flatten(),
{
    let m = RecorderModel::empty(allow_redefinition);
    lemma_appends_concatenate(m, chunks);
    assert(m.codes + chunks.flatten() =~= chunks.flatten());
}

/// Binding a label binds it to the length of the buffer at that moment,
/// and leaves the buffer, and so its length, as it was.
pub proof fn lemma_label_binds_current_length(m: RecorderModel, name: Seq<char>)
    requires
        m.wf(),
    ensures
        m.define(name).labels.contains_key(name),
        m.define(name).labels[name] == m.codes.len(),
        m.define(name).codes == m.codes,
        m.define(name).wf(),
{
}

/// A jump emitted before its label: with `between` appended after the
/// placeholder and the label bound behind that, the jump's encoder is
/// handed the position of the placeholder and the offset just behind
/// `between`.
pub proof fn lemma_forward_reference(
    m: RecorderModel,
    plen: usize,
    name: Seq<char>,
    between: Seq<u8>,
)
    requires
        m.wf(),
        m.codes.len() + plen + between.len() <= usize::MAX,
    ensures
        ({
            let end = m.defer_jump(plen, name).append(between).define(name);
            &&& end.wf()
            &&& end.patches.len() == m.patches.len() + 1
            &&& end.target_defined(m.patches.len() as int)
            &&& end.targets()[m.patches.len() as int] == (
                m.codes.len() as usize,
                (m.codes.len() + plen + between.len()) as usize,
            )
        }),
{
}

/// A jump emitted after its label: the offset of the label is at most the
/// position of the placeholder, and less where anything was appended in
/// between.
pub proof fn lemma_backward_reference(
    m: RecorderModel,
    name: Seq<char>,
    between: Seq<u8>,
    plen: usize,
)
    requires
        m.wf(),
        m.codes.len() + between.len() + plen <= usize::MAX,
    ensures
        ({
            let end = m.define(name).append(between).defer_jump(plen, name);
            let (patch_pos, offset) = end.targets()[m.patches.len() as int];
            &&& end.wf()
            &&& end.target_defined(m.patches.len() as int)
            &&& offset == m.codes.len()
            &&& patch_pos == m.codes.len() + between.len()
            &&& offset <= patch_pos
            &&& between.len() > 0 ==> offset < patch_pos
        }),
{
}

/// Where a pending patch names a label that is not defined, resolution
/// fails with the error for an unresolved label, whatever the
/// replacements, and leaves the recorder untouched.
pub proof fn lemma_unresolved_label_is_refused(
    before: RecorderModel,
    replacements: Seq<Seq<u8>>,
    after: RecorderModel,
    res: Result<(), EmitError>,
    i: int,
)
    requires
        !before.resolved,
        0 <= i < before.patches.len(),
        !before.target_defined(i),
        resolved_as(before, replacements, after, res),
    ensures
        res matches Err(e) && e@ is UnresolvedLabel,
        after == before,
{
}

/// Resolution fails in no other way than by leaving the recorder untouched.
pub proof fn lemma_failed_resolution_changes_nothing(
    before: RecorderModel,
    replacements: Seq<Seq<u8>>,
    after: RecorderModel,
    res: Result<(), EmitError>,
)
    requires
        resolved_as(before, replacements, after, res),
        res is Err,
    ensures
        after == before,
{
}

/// A successful resolution keeps the length of the buffer, writes each
/// replacement over the placeholder of its patch, and leaves every byte
/// outside the placeholders as it was.
pub proof fn lemma_resolution_is_local(
    before: RecorderModel,
    replacements: Seq<Seq<u8>>,
    after: RecorderModel,
    res: Result<(), EmitError>,
)
    requires
        before.wf(),
        resolved_as(before, replacements, after, res),
        res is Ok,
    ensures
        after.resolved,
        after.codes.len() == before.codes.len(),
        after.labels == before.labels,
        after.patches == before.patches,
        forall|k: int|
            0 <= k < before.codes.len() && !before.in_placeholder(k) ==> after.codes[k]
                == before.codes[k],
        forall|i: int, k: int|
            0 <= i < before.patches.len() && 0 <= k < before.patches[i].len ==> after.codes[before.patches[i].pos
                + k] == #[trigger] replacements[i][k],
{
    let n = before.patches.len();
    lemma_patched_len(before.codes, before.patches, replacements, n);
    assert forall|k: int|
        0 <= k < before.codes.len() && !before.in_placeholder(k) implies after.codes[k]
        == before.codes[k] by {
        lemma_patched_outside(before, replacements, n, k);
    }
    assert forall|i: int, k: int|
        0 <= i < before.patches.len() && 0 <= k < before.patches[i].len implies after.codes[before.patches[i].pos
        + k] == #[trigger] replacements[i][k] by {
        lemma_patched_inside(before, replacements, n, i, k);
    }
}

/// Binding a bound label again goes by the recorder's policy and by nothing
/// else: where rebinding is allowed the later binding wins, and where it is
/// not the attempt is refused and names the offset that stands.
pub proof fn lemma_redefinition_follows_policy(m: RecorderModel, name: Seq<char>)
    requires
        m.wf(),
        !m.resolved,
        m.labels.contains_key(name),
    ensures
        m.allow_redefinition ==> m.define_fault(name) is None && m.define(name).labels[name]
            == m.codes.len(),
        !m.allow_redefinition ==> m.define_fault(name) == Some(
            Fault::LabelRedefinition { label: name, offset: m.labels[name] },
        ),
{
}

/// A byte outside the placeholders of the first `n` patches survives their
/// replacement.
proof fn lemma_patched_outside(m: RecorderModel, replacements: Seq<Seq<u8>>, n: nat, k: int)
    requires
        m.wf(),
        m.all_lengths_fit(replacements),
        n <= m.patches.len(),
        0 <= k < m.codes.len(),
        forall|i: int| 0 <= i < n ==> !m.patches[i].covers(k),
    ensures
        patched(m.codes, m.patches, replacements, n)[k] == m.codes[k],
    decreases n,
{
    if n > 0 {
        lemma_patched_len(m.codes, m.patches, replacements, (n - 1) as nat);
        lemma_patched_outside(m, replacements, (n - 1) as nat, k);
        assert(!m.patches[n - 1].covers(k));
        assert(m.length_fits(replacements, n - 1));
    }
}

/// Byte `k` of replacement `i` stands at its place in the placeholder of
/// patch `i` once the first `n` patches, patch `i` among them, are
/// replaced.
proof fn lemma_patched_inside(
    m: RecorderModel,
    replacements: Seq<Seq<u8>>,
    n: nat,
    i: int,
    k: int,
)
    requires
        m.wf(),
        m.all_lengths_fit(replacements),
        0 <= i < n <= m.patches.len(),
        0 <= k < m.patches[i].len,
    ensures
        patched(m.codes, m.patches, replacements, n)[m.patches[i].pos + k] == replacements[i][k],
    decreases n,
{
    lemma_patched_len(m.codes, m.patches, replacements, (n - 1) as nat);
    assert(m.length_fits(replacements, n - 1));
    assert(m.length_fits(replacements, i));
    if i < n - 1 {
        lemma_patched_inside(m, replacements, (n - 1) as nat, i, k);
        assert(m.patches[i].pos + m.patches[i].len <= m.patches[n - 1].pos);
    }
}

} // verus!
