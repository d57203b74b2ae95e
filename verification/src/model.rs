//! The mathematical model that the contracts of the recorder speak of.

use vstd::prelude::*;

verus! {

/// A pending patch: `len` placeholder bytes starting at `pos`, to be filled
/// with the encoding of a jump to `target`.
pub struct PatchModel {
    pub pos: usize,
    pub len: usize,
    pub target: Seq<char>,
}

impl PatchModel {
    /// Whether position `k` lies in the placeholder.
    pub open spec fn covers(self, k: int) -> bool {
        self.pos <= k < self.pos + self.len
    }
}

/// What can go wrong, with label names as character sequences.
pub enum Fault {
    /// The patch at `patch_pos` names a label that was never defined.
    UnresolvedLabel { label: Seq<char>, patch_pos: usize },
    /// The replacement for the patch at `patch_pos` has `actual` bytes where
    /// `expected` bytes were reserved.
    PatchLengthMismatch { patch_pos: usize, expected: usize, actual: usize },
    /// There are `actual` replacements for `expected` pending patches.
    ReplacementCountMismatch { expected: usize, actual: usize },
    /// The label is already bound to `offset` and rebinding is not allowed.
    LabelRedefinition { label: Seq<char>, offset: usize },
    /// The resolution pass has already run.
    AlreadyResolved,
}

/// The abstract state of a recorder.
pub struct RecorderModel {
    /// The bytes emitted so far.
    pub codes: Seq<u8>,
    /// The offset bound to each defined label.
    pub labels: Map<Seq<char>, usize>,
    /// The patch requests, in emission order.
    pub patches: Seq<PatchModel>,
    /// Whether the resolution pass has run.
    pub resolved: bool,
    /// Whether a label may be bound a second time.
    pub allow_redefinition: bool,
}

/// `n` zero bytes.
pub open spec fn zeros(n: nat) -> Seq<u8> {
    Seq::new(n, |i: int| 0u8)
}

/// `codes` with `bytes` written over the positions from `pos` on. Positions
/// outside `codes` are not written.
pub open spec fn overwrite(codes: Seq<u8>, pos: int, bytes: Seq<u8>) -> Seq<u8> {
    Seq::new(
        codes.len(),
        |k: int|
            if pos <= k < pos + bytes.len() {
                bytes[k - pos]
            } else {
                codes[k]
            },
    )
}

/// `codes` after the replacements of the first `n` patches were written over
/// their placeholders, in emission order.
pub open spec fn patched(
    codes: Seq<u8>,
    patches: Seq<PatchModel>,
    replacements: Seq<Seq<u8>>,
    n: nat,
) -> Seq<u8>
    decreases n,
{
    if n == 0 {
        codes
    } else {
        overwrite(
            patched(codes, patches, replacements, (n - 1) as nat),
            patches[n - 1].pos as int,
            replacements[n - 1],
        )
    }
}

impl RecorderModel {
    /// A fresh recorder: no bytes, no labels, no patches, still emitting.
    pub open spec fn empty(allow_redefinition: bool) -> Self {
        RecorderModel {
            codes: Seq::empty(),
            labels: Map::empty(),
            patches: Seq::empty(),
            resolved: false,
            allow_redefinition,
        }
    }

    /// Every placeholder lies inside the buffer, the placeholders follow one
    /// another without overlap, every label points into the buffer or at
    /// its end, and every offset fits the machine word.
    pub open spec fn wf(self) -> bool {
        &&& self.codes.len() <= usize::MAX
        &&& forall|i: int|
            0 <= i < self.patches.len() ==> (#[trigger] self.patches[i]).pos
                + self.patches[i].len <= self.codes.len()
        &&& forall|i: int, j: int|
            0 <= i < j < self.patches.len() ==> (#[trigger] self.patches[i]).pos
                + self.patches[i].len <= (#[trigger] self.patches[j]).pos
        &&& forall|name: Seq<char>| #[trigger]
            self.labels.contains_key(name) ==> self.labels[name] <= self.codes.len()
    }

    /// The state after `bytes` were appended.
    pub open spec fn append(self, bytes: Seq<u8>) -> Self {
        RecorderModel { codes: self.codes + bytes, ..self }
    }

    /// The state after each of `chunks` was appended in turn.
    pub open spec fn append_all(self, chunks: Seq<Seq<u8>>) -> Self
        decreases chunks.len(),
    {
        if chunks.len() == 0 {
            self
        } else {
            self.append(chunks.first()).append_all(chunks.drop_first())
        }
    }

    /// The state after `n` placeholder bytes were appended.
    pub open spec fn reserve(self, n: nat) -> Self {
        self.append(zeros(n))
    }

    /// The state after a jump to `target` was deferred: `n` placeholder
    /// bytes at the end of the buffer and a patch request for them.
    pub open spec fn defer_jump(self, n: usize, target: Seq<char>) -> Self {
        RecorderModel {
            patches: self.patches.push(
                PatchModel { pos: self.codes.len() as usize, len: n, target },
            ),
            ..self.reserve(n as nat)
        }
    }

    /// The state after `name` was bound to the current end of the buffer.
    pub open spec fn define(self, name: Seq<char>) -> Self {
        RecorderModel { labels: self.labels.insert(name, self.codes.len() as usize), ..self }
    }

    /// Why appending is refused, if it is: only because the buffer is final.
    pub open spec fn emit_fault(self) -> Option<Fault> {
        if self.resolved {
            Some(Fault::AlreadyResolved)
        } else {
            None
        }
    }

    /// Why binding `name` now is refused, if it is: because the buffer is
    /// final, or because `name` is bound and rebinding is not allowed.
    pub open spec fn define_fault(self, name: Seq<char>) -> Option<Fault> {
        if self.resolved {
            Some(Fault::AlreadyResolved)
        } else if !self.allow_redefinition && self.labels.contains_key(name) {
            Some(Fault::LabelRedefinition { label: name, offset: self.labels[name] })
        } else {
            None
        }
    }

    /// Whether the label of patch `i` is defined.
    pub open spec fn target_defined(self, i: int) -> bool {
        self.labels.contains_key(self.patches[i].target)
    }

    /// Whether every pending patch names a defined label.
    pub open spec fn all_targets_defined(self) -> bool {
        forall|i: int| 0 <= i < self.patches.len() ==> self.target_defined(i)
    }

    /// Whether patch `i` is the first, in emission order, whose label is
    /// not defined.
    pub open spec fn is_first_unresolved(self, i: int) -> bool {
        &&& 0 <= i < self.patches.len()
        &&& !self.target_defined(i)
        &&& forall|j: int| 0 <= j < i ==> self.target_defined(j)
    }

    /// The first patch whose label is not defined, where there is one.
    pub open spec fn first_unresolved(self) -> int {
        choose|i: int| self.is_first_unresolved(i)
    }

    /// The fault for the first undefined label, if a pending patch names one.
    pub open spec fn targets_fault(self) -> Option<Fault> {
        if self.all_targets_defined() {
            None
        } else {
            let i = self.first_unresolved();
            Some(
                Fault::UnresolvedLabel {
                    label: self.patches[i].target,
                    patch_pos: self.patches[i].pos,
                },
            )
        }
    }

    /// For each pending patch, the position of its placeholder and the
    /// offset of its label: what the encoder of a jump is handed.
    pub open spec fn targets(self) -> Seq<(usize, usize)> {
        Seq::new(
            self.patches.len(),
            |i: int| (self.patches[i].pos, self.labels[self.patches[i].target]),
        )
    }

    /// Whether replacement `i` has the length that patch `i` reserved.
    pub open spec fn length_fits(self, replacements: Seq<Seq<u8>>, i: int) -> bool {
        replacements[i].len() == self.patches[i].len
    }

    /// Whether every replacement up to the number of patches has the
    /// reserved length.
    pub open spec fn all_lengths_fit(self, replacements: Seq<Seq<u8>>) -> bool {
        forall|i: int| 0 <= i < self.patches.len() ==> self.length_fits(replacements, i)
    }

    /// Whether replacement `i` is the first of a wrong length.
    pub open spec fn is_first_misfit(self, replacements: Seq<Seq<u8>>, i: int) -> bool {
        &&& 0 <= i < self.patches.len()
        &&& !self.length_fits(replacements, i)
        &&& forall|j: int| 0 <= j < i ==> self.length_fits(replacements, j)
    }

    /// The first replacement of a wrong length, where there is one.
    pub open spec fn first_misfit(self, replacements: Seq<Seq<u8>>) -> int {
        choose|i: int| self.is_first_misfit(replacements, i)
    }

    /// Why resolution with these replacements is refused, if it is. The
    /// phase is checked first, then the labels, then the number of
    /// replacements, then their lengths; of several undefined labels or
    /// wrong lengths the first in emission order is reported.
    pub open spec fn resolve_fault(self, replacements: Seq<Seq<u8>>) -> Option<Fault> {
        if self.resolved {
            Some(Fault::AlreadyResolved)
        } else if !self.all_targets_defined() {
            self.targets_fault()
        } else if replacements.len() != self.patches.len() {
            Some(
                Fault::ReplacementCountMismatch {
                    expected: self.patches.len() as usize,
                    actual: replacements.len() as usize,
                },
            )
        } else if !self.all_lengths_fit(replacements) {
            let i = self.first_misfit(replacements);
            Some(
                Fault::PatchLengthMismatch {
                    patch_pos: self.patches[i].pos,
                    expected: self.patches[i].len,
                    actual: replacements[i].len() as usize,
                },
            )
        } else {
            None
        }
    }

    /// The state after a resolution pass with these replacements: every
    /// placeholder overwritten, everything else as it was.
    pub open spec fn resolve_with(self, replacements: Seq<Seq<u8>>) -> Self {
        RecorderModel {
            codes: patched(self.codes, self.patches, replacements, self.patches.len()),
            resolved: true,
            ..self
        }
    }

    /// Whether position `k` of the buffer lies in the placeholder of some
    /// pending patch.
    pub open spec fn in_placeholder(self, k: int) -> bool {
        exists|i: int| 0 <= i < self.patches.len() && (#[trigger] self.patches[i]).covers(k)
    }
}

/// The first patch with an undefined label is the only one that is first.
pub proof fn lemma_first_unresolved(m: RecorderModel, i: int)
    requires
        m.is_first_unresolved(i),
    ensures
        !m.all_targets_defined(),
        m.first_unresolved() == i,
{
    let c = m.first_unresolved();
    assert(m.is_first_unresolved(c));
    if c < i {
        assert(m.target_defined(c));
    }
    if i < c {
        assert(m.target_defined(i));
    }
}

/// The first replacement of a wrong length is the only one that is first.
pub proof fn lemma_first_misfit(m: RecorderModel, replacements: Seq<Seq<u8>>, i: int)
    requires
        m.is_first_misfit(replacements, i),
    ensures
        !m.all_lengths_fit(replacements),
        m.first_misfit(replacements) == i,
{
    let c = m.first_misfit(replacements);
    assert(m.is_first_misfit(replacements, c));
    if c < i {
        assert(m.length_fits(replacements, c));
    }
    if i < c {
        assert(m.length_fits(replacements, i));
    }
}

/// Writing replacements never changes the length of the buffer.
pub proof fn lemma_patched_len(
    codes: Seq<u8>,
    patches: Seq<PatchModel>,
    replacements: Seq<Seq<u8>>,
    n: nat,
)
    ensures
        patched(codes, patches, replacements, n).len() == codes.len(),
    decreases n,
{
    if n > 0 {
        lemma_patched_len(codes, patches, replacements, (n - 1) as nat);
    }
}

} // verus!
