//! Grouping of a sample stream into chunks of a fixed size.
use vstd::prelude::*;

verus! {

/// Samples per chunk handed on from the microphone: about 10 ms at 16 kHz.
pub const CHUNK_SAMPLES: usize = 160;

/// Collects samples and hands them on in chunks of `CHUNK_SAMPLES`; what
/// does not fill a chunk yet stays staged.
pub struct ChunkStager<T> {
    staged: Vec<T>,
}

impl<T> View for ChunkStager<T> {
    type V = Seq<T>;

    closed spec fn view(&self) -> Seq<T> {
        self.staged@
    }
}

/// The chunks one after the other.
pub open spec fn concat_chunks<T>(chunks: Seq<Seq<T>>) -> Seq<T>
    decreases chunks.len(),
{
    if chunks.len() == 0 {
        Seq::empty()
    } else {
        concat_chunks(chunks.drop_last()) + chunks.last()
    }
}

impl<T: Copy> ChunkStager<T> {
    /// Fewer samples are staged than make a chunk.
    pub open spec fn wf(&self) -> bool {
        self@.len() < CHUNK_SAMPLES
    }

    pub fn new() -> (r: Self)
        ensures
            r@ == Seq::<T>::empty(),
            r.wf(),
    {
        ChunkStager { staged: Vec::new() }
    }

    /// Stages `samples` and returns every chunk that filled up, in order:
    /// the chunks, then what stays staged, are what was staged followed by
    /// `samples`.
    pub fn push_samples(&mut self, samples: &[T]) -> (chunks: Vec<Vec<T>>)
        requires
            old(self).wf(),
        ensures
            final(self).wf(),
            forall|i: int| 0 <= i < chunks.len() ==> (#[trigger] chunks@[i]).len() == CHUNK_SAMPLES,
            concat_chunks(chunks@.map_values(|c: Vec<T>| c@)) + final(self)@ == old(self)@
                + samples@,
    {
        let mut out: Vec<Vec<T>> = Vec::new();
        let mut i: usize = 0;
        assert(concat_chunks(out@.map_values(|c: Vec<T>| c@)) =~= Seq::<T>::empty());
        assert(samples@.take(0) =~= Seq::<T>::empty());
        assert(old(self)@ + samples@.take(0) =~= old(self)@);
        assert(Seq::<T>::empty() + self.staged@ =~= self.staged@);
        while i < samples.len()
            invariant
                i <= samples.len(),
                self.staged@.len() < CHUNK_SAMPLES,
                forall|j: int| 0 <= j < out.len() ==> (#[trigger] out@[j]).len() == CHUNK_SAMPLES,
                concat_chunks(out@.map_values(|c: Vec<T>| c@)) + self.staged@ == old(self)@
                    + samples@.take(i as int),
            decreases samples.len() - i,
        {
            let ghost done = concat_chunks(out@.map_values(|c: Vec<T>| c@));
            assert(samples@.take(i + 1) =~= samples@.take(i as int).push(samples@[i as int]));
            let ghost st = self.staged@;
            self.staged.push(samples[i]);
            assert(self.staged@ == st.push(samples@[i as int]));
            assert(done + st == old(self)@ + samples@.take(i as int));
            assert(done + st.push(samples@[i as int]) =~= (done + st).push(samples@[i as int]));
            assert((old(self)@ + samples@.take(i as int)).push(samples@[i as int]) =~= old(self)@
                + samples@.take(i + 1));
            assert(done + self.staged@ == old(self)@ + samples@.take(i + 1));
            if self.staged.len() >= CHUNK_SAMPLES {
                let mut full: Vec<T> = Vec::new();
                std::mem::swap(&mut full, &mut self.staged);
                let ghost before = out@;
                let ghost fv = full@;
                out.push(full);
                assert(out@.map_values(|c: Vec<T>| c@) =~= before.map_values(|c: Vec<T>| c@).push(
                    fv,
                ));
                assert(out@.map_values(|c: Vec<T>| c@).drop_last() =~= before.map_values(
                    |c: Vec<T>| c@,
                ));
                assert(concat_chunks(out@.map_values(|c: Vec<T>| c@)) == done + fv);
                assert(done + fv + self.staged@ =~= done + fv);
            }
            i += 1;
        }
        assert(samples@.take(samples.len() as int) =~= samples@);
        out
    }
}

} // verus!
