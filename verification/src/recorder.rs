//! The recorder: the buffer, its label table and its pending patches.

use crate::error::EmitError;
use crate::model::{
    lemma_first_misfit, lemma_first_unresolved, lemma_patched_len, overwrite, patched, zeros,
    PatchModel, RecorderModel,
};
use vstd::hash_map::StringHashMap;
use vstd::prelude::*;

verus! {

/// A request to fill `patch_len` placeholder bytes at `patch_pos` with the
/// encoding of a jump to the label `jump_to_ref`.
#[derive(Debug)]
pub struct JumpInstPatch {
    pub patch_pos: usize,
    pub patch_len: usize,
    pub jump_to_ref: String,
}

impl View for JumpInstPatch {
    type V = PatchModel;

    open spec fn view(&self) -> PatchModel {
        PatchModel { pos: self.patch_pos, len: self.patch_len, target: self.jump_to_ref@ }
    }
}

/// The emission buffer of one session.
pub struct CodeEmitRecorder {
    patch_jump_inst_list: Vec<JumpInstPatch>,
    label_name_table: StringHashMap<usize>,
    codes: Vec<u8>,
    resolved: bool,
    allow_redefinition: bool,
}

impl View for CodeEmitRecorder {
    type V = RecorderModel;

    closed spec fn view(&self) -> RecorderModel {
        RecorderModel {
            codes: self.codes@,
            labels: self.label_name_table@,
            patches: Seq::new(
                self.patch_jump_inst_list@.len(),
                |i: int| self.patch_jump_inst_list@[i]@,
            ),
            resolved: self.resolved,
            allow_redefinition: self.allow_redefinition,
        }
    }
}

impl CodeEmitRecorder {
    /// An empty recorder in which a label may be bound again; the later
    /// binding then replaces the earlier one.
    pub fn new() -> (rec: Self)
        ensures
            rec@ == RecorderModel::empty(true),
            rec@.wf(),
    {
        Self::with_redefinition(true)
    }

    /// An empty recorder. With `allow_redefinition` unset, binding a label
    /// that is bound already is an error.
    pub fn with_redefinition(allow_redefinition: bool) -> (rec: Self)
        ensures
            rec@ == RecorderModel::empty(allow_redefinition),
            rec@.wf(),
    {
        let rec = CodeEmitRecorder {
            patch_jump_inst_list: Vec::new(),
            label_name_table: StringHashMap::new(),
            codes: Vec::new(),
            resolved: false,
            allow_redefinition,
        };
        assert(rec@.patches =~= Seq::empty());
        rec
    }

    /// The number of bytes in the buffer.
    pub fn code_len(&self) -> (len: usize)
        ensures
            len == self@.codes.len(),
    {
        self.codes.len()
    }

    /// Whether the resolution pass has run.
    pub fn is_resolved(&self) -> (resolved: bool)
        ensures
            resolved == self@.resolved,
    {
        self.resolved
    }

    /// The offset bound to `name`, if it is defined.
    pub fn label_offset(&self, name: &str) -> (offset: Option<usize>)
        ensures
            offset == if self@.labels.contains_key(name@) {
                Some(self@.labels[name@])
            } else {
                None
            },
    {
        match self.label_name_table.get(name) {
            Some(at) => Some(*at),
            None => None,
        }
    }

    /// Appends the bytes of one instruction. Refused once the buffer is
    /// final.
    pub fn add_inst(&mut self, inst: &[u8]) -> (res: Result<(), EmitError>)
        requires
            old(self)@.wf(),
        ensures
            final(self)@.wf(),
            emitted(old(self)@, old(self)@.append(inst@), final(self)@, res),
    {
        if self.resolved {
            return Err(EmitError::AlreadyResolved);
        }
        let mut i: usize = 0;
        while i < inst.len()
            invariant
                i <= inst.len(),
                self.codes@ == old(self).codes@ + inst@.take(i as int),
                self.patch_jump_inst_list == old(self).patch_jump_inst_list,
                self.label_name_table == old(self).label_name_table,
                self.resolved == old(self).resolved,
                self.allow_redefinition == old(self).allow_redefinition,
            decreases inst.len() - i,
        {
            self.codes.push(inst[i]);
            i += 1;
            assert(self.codes@ =~= old(self).codes@ + inst@.take(i as int));
        }
        assert(inst@.take(i as int) =~= inst@);
        assert(self.codes@.len() == self.codes.len());
        assert(self@ == old(self)@.append(inst@));
        Ok(())
    }

    /// Appends `plen` zero bytes, to be overwritten later. Refused once the
    /// buffer is final.
    pub fn zero_padding(&mut self, plen: usize) -> (res: Result<(), EmitError>)
        requires
            old(self)@.wf(),
        ensures
            final(self)@.wf(),
            emitted(old(self)@, old(self)@.reserve(plen as nat), final(self)@, res),
    {
        if self.resolved {
            return Err(EmitError::AlreadyResolved);
        }
        let mut i: usize = 0;
        while i < plen
            invariant
                i <= plen,
                self.codes@ == old(self).codes@ + zeros(i as nat),
                self.patch_jump_inst_list == old(self).patch_jump_inst_list,
                self.label_name_table == old(self).label_name_table,
                self.resolved == old(self).resolved,
                self.allow_redefinition == old(self).allow_redefinition,
            decreases plen - i,
        {
            self.codes.push(0);
            i += 1;
            assert(self.codes@ =~= old(self).codes@ + zeros(i as nat));
        }
        assert(self.codes@.len() == self.codes.len());
        assert(self@ == old(self)@.reserve(plen as nat));
        Ok(())
    }

    /// Emits a jump to a label that may not be defined yet: reserves `plen`
    /// zero bytes at the end of the buffer and records that they are to be
    /// filled with the jump to `jump_to_label`. Refused once the buffer is
    /// final.
    pub fn add_jump_inst(&mut self, plen: usize, jump_to_label: String) -> (res: Result<
        (),
        EmitError,
    >)
        requires
            old(self)@.wf(),
        ensures
            final(self)@.wf(),
            emitted(
                old(self)@,
                old(self)@.defer_jump(plen, jump_to_label@),
                final(self)@,
                res,
            ),
    {
        let record = self.codes.len();
        match self.zero_padding(plen) {
            Err(e) => Err(e),
            Ok(()) => {
                self.patch_jump_inst_list.push(
                    JumpInstPatch {
                        patch_pos: record,
                        patch_len: plen,
                        jump_to_ref: jump_to_label,
                    },
                );
                assert(self@.patches =~= old(self)@.defer_jump(plen, jump_to_label@).patches);
                Ok(())
            },
        }
    }

    /// Binds `label` to the current end of the buffer. Refused once the
    /// buffer is final, and where `label` is bound already unless the
    /// recorder allows rebinding; the new binding then replaces the old.
    pub fn label(&mut self, label: String) -> (res: Result<(), EmitError>)
        requires
            old(self)@.wf(),
        ensures
            final(self)@.wf(),
            match old(self)@.define_fault(label@) {
                Some(fault) => res matches Err(e) && e@ == fault && final(self)@ == old(self)@,
                None => res is Ok && final(self)@ == old(self)@.define(label@),
            },
    {
        if self.resolved {
            return Err(EmitError::AlreadyResolved);
        }
        if !self.allow_redefinition {
            match self.label_name_table.get(label.as_str()) {
                Some(at) => {
                    let offset = *at;
                    return Err(EmitError::LabelRedefinition { label, offset });
                },
                None => {},
            }
        }
        let here = self.code_len();
        self.label_name_table.insert(label, here);
        assert(self@ == old(self)@.define(label@));
        Ok(())
    }

    /// For each pending patch, in emission order, the position of its
    /// placeholder and the offset of its label; or the first patch whose
    /// label is not defined.
    pub fn patch_targets(&self) -> (res: Result<Vec<(usize, usize)>, EmitError>)
        ensures
            match self@.targets_fault() {
                Some(fault) => res matches Err(e) && e@ == fault,
                None => res matches Ok(targets) && targets@ == self@.targets(),
            },
    {
        let mut targets: Vec<(usize, usize)> = Vec::new();
        let mut i: usize = 0;
        while i < self.patch_jump_inst_list.len()
            invariant
                i <= self.patch_jump_inst_list.len(),
                targets@.len() == i,
                forall|j: int| 0 <= j < i ==> self@.target_defined(j),
                forall|j: int| 0 <= j < i ==> targets@[j] == self@.targets()[j],
            decreases self.patch_jump_inst_list.len() - i,
        {
            let patch = &self.patch_jump_inst_list[i];
            match self.label_name_table.get(patch.jump_to_ref.as_str()) {
                Some(at) => {
                    targets.push((patch.patch_pos, *at));
                },
                None => {
                    proof {
                        lemma_first_unresolved(self@, i as int);
                    }
                    return Err(
                        EmitError::UnresolvedLabel {
                            label: patch.jump_to_ref.clone(),
                            patch_pos: patch.patch_pos,
                        },
                    );
                },
            }
            i += 1;
        }
        assert(targets@ =~= self@.targets());
        Ok(targets)
    }

    /// The resolution pass with the bytes of every jump given: writes
    /// replacement `i` over the placeholder of patch `i` and makes the
    /// buffer final. Refused, with nothing written, where the buffer is
    /// final already, a patch names an undefined label, or the replacements
    /// are not one per patch, each of the reserved length.
    pub fn apply_patches(&mut self, replacements: &Vec<Vec<u8>>) -> (res: Result<(), EmitError>)
        requires
            old(self)@.wf(),
        ensures
            final(self)@.wf(),
            resolved_as(old(self)@, rows(replacements@), final(self)@, res),
    {
        if self.resolved {
            return Err(EmitError::AlreadyResolved);
        }
        match self.patch_targets() {
            Err(e) => Err(e),
            Ok(_) => self.commit(replacements),
        }
    }

    /// The resolution pass: asks `proc` for the bytes of each jump, given
    /// the position of its placeholder and the offset of its label, then
    /// writes them over the placeholders and makes the buffer final.
    /// Refused, with nothing written, where the buffer is final already, a
    /// patch names an undefined label, or `proc` returns bytes of another
    /// length than was reserved.
    pub fn patching<F: Fn(usize, usize) -> Vec<u8>>(&mut self, proc: &F) -> (res: Result<
        (),
        EmitError,
    >)
        requires
            old(self)@.wf(),
            !old(self)@.resolved && old(self)@.all_targets_defined() ==> forall|i: int|
                0 <= i < old(self)@.patches.len() ==> call_requires(
                    *proc,
                    #[trigger] old(self)@.targets()[i],
                ),
        ensures
            final(self)@.wf(),
            old(self)@.resolved || !old(self)@.all_targets_defined() ==> resolved_as(
                old(self)@,
                Seq::empty(),
                final(self)@,
                res,
            ),
            !old(self)@.resolved && old(self)@.all_targets_defined() ==> exists|
                outputs: Seq<Vec<u8>>,
            |
                encoded_by(*proc, old(self)@.targets(), outputs) && resolved_as(
                    old(self)@,
                    rows(outputs),
                    final(self)@,
                    res,
                ),
    {
        if self.resolved {
            return Err(EmitError::AlreadyResolved);
        }
        let targets = match self.patch_targets() {
            Err(e) => {
                return Err(e);
            },
            Ok(targets) => targets,
        };
        let mut replacements: Vec<Vec<u8>> = Vec::new();
        let mut i: usize = 0;
        while i < targets.len()
            invariant
                i <= targets.len(),
                replacements@.len() == i,
                targets@ == self@.targets(),
                forall|j: int|
                    0 <= j < targets.len() ==> call_requires(*proc, #[trigger] targets@[j]),
                forall|j: int|
                    0 <= j < i ==> call_ensures(*proc, targets@[j], #[trigger] replacements@[j]),
            decreases targets.len() - i,
        {
            let (patch_pos, offset) = targets[i];
            replacements.push(proc(patch_pos, offset));
            i += 1;
        }
        assert(encoded_by(*proc, self@.targets(), replacements@));
        self.commit(&replacements)
    }

    /// Checks the replacements against the placeholders and, where they
    /// fit, writes them and makes the buffer final.
    fn commit(&mut self, replacements: &Vec<Vec<u8>>) -> (res: Result<(), EmitError>)
        requires
            old(self)@.wf(),
            !old(self)@.resolved,
            old(self)@.all_targets_defined(),
        ensures
            final(self)@.wf(),
            resolved_as(old(self)@, rows(replacements@), final(self)@, res),
    {
        let ghost given = rows(replacements@);
        let n = self.patch_jump_inst_list.len();
        if replacements.len() != n {
            return Err(
                EmitError::ReplacementCountMismatch { expected: n, actual: replacements.len() },
            );
        }
        let mut i: usize = 0;
        while i < n
            invariant
                i <= n,
                n == self.patch_jump_inst_list.len(),
                n == replacements.len(),
                given == rows(replacements@),
                *self == *old(self),
                self@.wf(),
                !self@.resolved,
                self@.all_targets_defined(),
                forall|j: int| 0 <= j < i ==> self@.length_fits(given, j),
            decreases n - i,
        {
            let patch = &self.patch_jump_inst_list[i];
            let actual = replacements[i].len();
            if actual != patch.patch_len {
                proof {
                    lemma_first_misfit(self@, given, i as int);
                }
                return Err(
                    EmitError::PatchLengthMismatch {
                        patch_pos: patch.patch_pos,
                        expected: patch.patch_len,
                        actual,
                    },
                );
            }
            i += 1;
        }
        assert(old(self)@.all_lengths_fit(given));
        let mut i: usize = 0;
        while i < n
            invariant
                i <= n,
                n == self.patch_jump_inst_list.len(),
                n == replacements.len(),
                given == rows(replacements@),
                old(self)@.wf(),
                old(self)@.all_lengths_fit(given),
                self.codes@ == patched(old(self)@.codes, old(self)@.patches, given, i as nat),
                self.patch_jump_inst_list == old(self).patch_jump_inst_list,
                self.label_name_table == old(self).label_name_table,
                self.resolved == old(self).resolved,
                self.allow_redefinition == old(self).allow_redefinition,
            decreases n - i,
        {
            let patch_pos = self.patch_jump_inst_list[i].patch_pos;
            let bytes = &replacements[i];
            let ghost base = self.codes@;
            proof {
                lemma_patched_len(old(self)@.codes, old(self)@.patches, given, i as nat);
                assert(old(self)@.patches[i as int].pos == patch_pos);
                assert(old(self)@.length_fits(given, i as int));
                assert(given[i as int] == bytes@);
            }
            let mut k: usize = 0;
            while k < bytes.len()
                invariant
                    k <= bytes.len(),
                    patch_pos + bytes.len() <= base.len() <= usize::MAX,
                    self.codes@ == overwrite(base, patch_pos as int, bytes@.take(k as int)),
                    self.patch_jump_inst_list == old(self).patch_jump_inst_list,
                    self.label_name_table == old(self).label_name_table,
                    self.resolved == old(self).resolved,
                    self.allow_redefinition == old(self).allow_redefinition,
                decreases bytes.len() - k,
            {
                self.codes.set(patch_pos + k, bytes[k]);
                k += 1;
                assert(self.codes@ =~= overwrite(base, patch_pos as int, bytes@.take(k as int)));
            }
            assert(bytes@.take(k as int) =~= bytes@);
            i += 1;
        }
        self.resolved = true;
        proof {
            lemma_patched_len(old(self)@.codes, old(self)@.patches, given, n as nat);
            assert(self@ == old(self)@.resolve_with(given));
        }
        Ok(())
    }

    /// Hands the bytes of the buffer to `sink`, behind what it holds.
    pub fn dump_codes(&self, sink: &mut Vec<u8>)
        ensures
            final(sink)@ == old(sink)@ + self@.codes,
    {
        let mut i: usize = 0;
        while i < self.codes.len()
            invariant
                i <= self.codes.len(),
                sink@ == old(sink)@ + self.codes@.take(i as int),
            decreases self.codes.len() - i,
        {
            sink.push(self.codes[i]);
            i += 1;
            assert(sink@ =~= old(sink)@ + self.codes@.take(i as int));
        }
        assert(self.codes@.take(i as int) =~= self.codes@);
    }
}

impl Default for CodeEmitRecorder {
    /// The same as [`CodeEmitRecorder::new`].
    fn default() -> (rec: Self)
        ensures
            rec@ == RecorderModel::empty(true),
            rec@.wf(),
    {
        CodeEmitRecorder::new()
    }
}

/// What an emitting operation leaves behind: `target` where the operation is
/// allowed, and otherwise the reason and the state as it was.
pub open spec fn emitted(
    before: RecorderModel,
    target: RecorderModel,
    after: RecorderModel,
    res: Result<(), EmitError>,
) -> bool {
    match before.emit_fault() {
        Some(fault) => res matches Err(e) && e@ == fault && after == before,
        None => res is Ok && after == target,
    }
}

/// What a resolution pass with these replacements leaves behind: the
/// patched, final buffer where nothing is wrong, and otherwise the reason and
/// the state as it was.
pub open spec fn resolved_as(
    before: RecorderModel,
    replacements: Seq<Seq<u8>>,
    after: RecorderModel,
    res: Result<(), EmitError>,
) -> bool {
    match before.resolve_fault(replacements) {
        Some(fault) => res matches Err(e) && e@ == fault && after == before,
        None => res is Ok && after == before.resolve_with(replacements),
    }
}

/// The contents of each of a sequence of byte vectors.
pub open spec fn rows(vectors: Seq<Vec<u8>>) -> Seq<Seq<u8>> {
    Seq::new(vectors.len(), |i: int| vectors[i]@)
}

/// Whether `outputs` holds, for each pair of `targets` in turn, a result of
/// `proc` on that pair.
pub open spec fn encoded_by<F: Fn(usize, usize) -> Vec<u8>>(
    proc: F,
    targets: Seq<(usize, usize)>,
    outputs: Seq<Vec<u8>>,
) -> bool {
    &&& outputs.len() == targets.len()
    &&& forall|i: int|
        0 <= i < targets.len() ==> call_ensures(proc, targets[i], #[trigger] outputs[i])
}

} // verus!
