//! The run over all commits: the check made before anything else, the
//! split into chunks, and the order in which the chunks are taken.

use vstd::prelude::*;
use crate::ids::ChangesetId;
use crate::validation::ValidationError;

verus! {

/// The number of commits in a chunk where none is asked for.
pub const DEFAULT_CHUNK_SIZE: usize = 10000;

/// The most commits of one chunk that are verified at the same time.
pub const MAX_CONCURRENT_COMMITS: usize = 100;

/// A run is refused unless the durable storage was opened read-only.
pub fn check_readonly_storage(readonly_storage: bool) -> (r: Result<(), ValidationError>)
    ensures
        r is Ok <==> readonly_storage,
        r matches Err(e) ==> e == ValidationError::StorageNotReadonly,
{
    if readonly_storage {
        Ok(())
    } else {
        Err(ValidationError::StorageNotReadonly)
    }
}

/// The number of chunks of `size` commits that `n` commits make.
pub open spec fn chunk_count(n: int, size: int) -> int {
    (n + size - 1) / size
}

/// Where the chunk `i` ends.
pub open spec fn chunk_end(n: int, size: int, i: int) -> int {
    if (i + 1) * size <= n {
        (i + 1) * size
    } else {
        n
    }
}

/// The chunk `i` of `commits`, for chunks of `size` commits.
pub open spec fn chunk_at(commits: Seq<ChangesetId>, size: int, i: int) -> Seq<ChangesetId> {
    commits.subrange(i * size, chunk_end(commits.len() as int, size, i))
}

proof fn lemma_chunk_count(n: int, size: int, i: int)
    requires
        size > 0,
        n >= 0,
        i >= 0,
        n <= i * size,
        i > 0 ==> (i - 1) * size < n,
    ensures
        chunk_count(n, size) == i,
{
    if i == 0 {
        assert(n == 0) by (nonlinear_arith)
            requires
                n >= 0,
                n <= i * size,
                i == 0,
        ;
        assert((size - 1) / size == 0) by (nonlinear_arith)
            requires
                size > 0,
        ;
    } else {
        let t = n + size - 1;
        assert(i * size <= t < (i + 1) * size) by (nonlinear_arith)
            requires
                (i - 1) * size < n,
                n <= i * size,
                t == n + size - 1,
        ;
        assert(t / size == i) by (nonlinear_arith)
            requires
                i * size <= t < (i + 1) * size,
                size > 0,
        ;
    }
}

/// Splits `commits` into chunks of `chunk_size` commits, in order; the last
/// chunk holds what is left and may be shorter.
pub fn split_into_chunks(commits: &Vec<ChangesetId>, chunk_size: usize) -> (chunks: Vec<
    Vec<ChangesetId>,
>)
    requires
        chunk_size > 0,
    ensures
        chunks@.len() == chunk_count(commits@.len() as int, chunk_size as int),
        forall|i: int|
            0 <= i < chunks@.len() ==> (#[trigger] chunks@[i])@ == chunk_at(
                commits@,
                chunk_size as int,
                i,
            ),
{
    let n = commits.len();
    let mut chunks: Vec<Vec<ChangesetId>> = Vec::new();
    let mut start: usize = 0;
    assert(0 * chunk_size == 0);
    while start < n
        invariant
            n == commits@.len(),
            chunk_size > 0,
            start <= n,
            start < n ==> start == chunks@.len() * chunk_size,
            start == n ==> n <= chunks@.len() * chunk_size,
            chunks@.len() > 0 ==> (chunks@.len() - 1) * chunk_size < n,
            forall|i: int|
                0 <= i < chunks@.len() ==> (#[trigger] chunks@[i])@ == chunk_at(
                    commits@,
                    chunk_size as int,
                    i,
                ),
        decreases n - start,
    {
        let ghost i = chunks@.len() as int;
        let end: usize = if n - start > chunk_size {
            start + chunk_size
        } else {
            n
        };
        proof {
            assert((i + 1) * chunk_size == i * chunk_size + chunk_size) by (nonlinear_arith);
            assert(end == chunk_end(n as int, chunk_size as int, i));
        }
        let mut chunk: Vec<ChangesetId> = Vec::new();
        let mut k: usize = start;
        while k < end
            invariant
                start <= k <= end <= n,
                n == commits@.len(),
                chunk@ == commits@.subrange(start as int, k as int),
            decreases end - k,
        {
            chunk.push(commits[k]);
            assert(chunk@ =~= commits@.subrange(start as int, k + 1));
            k += 1;
        }
        chunks.push(chunk);
        start = end;
    }
    proof {
        lemma_chunk_count(n as int, chunk_size as int, chunks@.len() as int);
    }
    chunks
}

/// How a run stands.
#[derive(Debug, PartialEq, Eq, Clone)]
pub enum RunStatus {
    /// A chunk is still to be validated.
    Pending,
    /// Every chunk was validated.
    Passed,
    /// A chunk failed, and the run stopped there.
    Failed(ValidationError),
}

/// A validation run: the chunks of commits, taken one after the other until
/// all have passed or one has failed.
pub struct ValidationRun {
    chunks: Vec<Vec<ChangesetId>>,
    next: usize,
    status: RunStatus,
}

impl ValidationRun {
    /// The chunks of the run.
    pub closed spec fn chunks_view(&self) -> Seq<Seq<ChangesetId>> {
        self.chunks@.map_values(|c: Vec<ChangesetId>| c@)
    }

    /// The number of chunks that have passed.
    pub closed spec fn passed(&self) -> nat {
        self.next as nat
    }

    /// How the run stands.
    pub closed spec fn status_view(&self) -> RunStatus {
        self.status
    }

    /// The run is consistent: it is pending exactly while chunks are left
    /// and none has failed, and it has passed exactly when none is left.
    pub open spec fn wf(&self) -> bool {
        &&& self.passed() <= self.chunks_view().len()
        &&& self.status_view() is Pending <==> self.passed() < self.chunks_view().len()
            && !(self.status_view() is Failed)
        &&& self.status_view() is Passed ==> self.passed() == self.chunks_view().len()
    }

    /// Begins a run over `commits` in chunks of `chunk_size`. The run is
    /// refused, before any chunk, unless the durable storage was opened
    /// read-only.
    pub fn start(readonly_storage: bool, commits: &Vec<ChangesetId>, chunk_size: usize) -> (r: Result<
        ValidationRun,
        ValidationError,
    >)
        requires
            chunk_size > 0,
        ensures
            r is Ok <==> readonly_storage,
            r matches Err(e) ==> e == ValidationError::StorageNotReadonly,
            r matches Ok(run) ==> {
                &&& run.wf()
                &&& run.passed() == 0
                &&& run.chunks_view().len() == chunk_count(commits@.len() as int, chunk_size as int)
                &&& forall|i: int|
                    0 <= i < run.chunks_view().len() ==> #[trigger] run.chunks_view()[i] == chunk_at(
                        commits@,
                        chunk_size as int,
                        i,
                    )
                &&& !(run.status_view() is Failed)
            },
    {
        match check_readonly_storage(readonly_storage) {
            Ok(()) => {},
            Err(e) => {
                return Err(e);
            },
        }
        let chunks = split_into_chunks(commits, chunk_size);
        let status = if chunks.len() == 0 {
            RunStatus::Passed
        } else {
            RunStatus::Pending
        };
        let run = ValidationRun { chunks, next: 0, status };
        proof {
            assert forall|i: int| 0 <= i < run.chunks_view().len() implies #[trigger] run.chunks_view()[i]
                == chunk_at(commits@, chunk_size as int, i) by {
                assert(run.chunks_view()[i] == run.chunks@[i]@);
            }
        }
        Ok(run)
    }

    /// How the run stands.
    pub fn status(&self) -> (s: &RunStatus)
        ensures
            *s == self.status_view(),
    {
        &self.status
    }

    /// The chunk to validate next, while the run is pending.
    pub fn next_chunk(&self) -> (r: Option<&Vec<ChangesetId>>)
        requires
            self.wf(),
        ensures
            r is Some <==> self.status_view() is Pending,
            r matches Some(chunk) ==> chunk@ == self.chunks_view()[self.passed() as int],
    {
        match self.status {
            RunStatus::Pending => Some(&self.chunks[self.next]),
            _ => None,
        }
    }

    /// Takes the result of the chunk that was handed out last. A failure
    /// stops the run; the chunks that have passed stay passed.
    pub fn finish_chunk(&mut self, result: Result<(), ValidationError>)
        requires
            old(self).wf(),
            old(self).status_view() is Pending,
        ensures
            final(self).wf(),
            final(self).chunks_view() == old(self).chunks_view(),
            result is Ok ==> final(self).passed() == old(self).passed() + 1 && !(
            final(self).status_view() is Failed),
            result matches Err(e) ==> final(self).passed() == old(self).passed()
                && final(self).status_view() == RunStatus::Failed(e),
    {
        match result {
            Ok(()) => {
                assert(self.chunks_view().len() == self.chunks@.len());
                let n = self.chunks.len();
                self.next = self.next + 1;
                if self.next == n {
                    self.status = RunStatus::Passed;
                }
            },
            Err(e) => {
                self.status = RunStatus::Failed(e);
            },
        }
    }
}

} // verus!
