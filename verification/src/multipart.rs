//! The multipart-upload lifecycle: one session per in-progress upload,
//! holding the upload id the remote issued, handing out 1-based contiguous
//! part numbers, recording each part's entity tag as its upload finishes in
//! any order, and terminating in exactly one of completion or abort. At most
//! [`MAX_IN_FLIGHT`] part uploads may be in flight at once; further parts
//! wait for a slot.

use vstd::prelude::*;

use crate::error::Error;

verus! {

/// Cap on simultaneously in-flight part uploads.
pub const MAX_IN_FLIGHT: usize = 16;

#[derive(Clone, Copy, Debug, PartialEq, Eq, Structural)]
pub enum SessionState {
    Created,
    Uploading,
    Completed,
    Aborted,
}

/// Why the session refuses a step: the state machine rejects a step rather
/// than let a corrupt object be assembled.
#[derive(Clone, Copy, Debug, PartialEq, Eq, Structural)]
pub enum SessionError {
    AlreadyTerminated,
    NoSlotFree,
    PartUnknown,
    PartAlreadyFinished,
    NoParts,
    PartsOutstanding,
}

/// How many issued parts have finished uploading.
pub open spec fn count_finished(parts: Seq<Option<String>>) -> int
    decreases parts.len(),
{
    if parts.len() == 0 {
        0
    } else {
        count_finished(parts.drop_last()) + if parts.last() is Some {
            1int
        } else {
            0int
        }
    }
}

proof fn lemma_count_le(parts: Seq<Option<String>>)
    ensures
        0 <= count_finished(parts) <= parts.len(),
    decreases parts.len(),
{
    if parts.len() > 0 {
        lemma_count_le(parts.drop_last());
    }
}

proof fn lemma_count_update(parts: Seq<Option<String>>, i: int, t: String)
    requires
        0 <= i < parts.len(),
        parts[i] is None,
    ensures
        count_finished(parts.update(i, Some(t))) == count_finished(parts) + 1,
    decreases parts.len(),
{
    let u = parts.update(i, Some(t));
    if i == parts.len() - 1 {
        assert(u.drop_last() =~= parts.drop_last());
    } else {
        assert(u.drop_last() =~= parts.drop_last().update(i, Some(t)));
        lemma_count_update(parts.drop_last(), i, t);
    }
}

proof fn lemma_count_push_none(parts: Seq<Option<String>>)
    ensures
        count_finished(parts.push(None)) == count_finished(parts),
{
    assert(parts.push(None).drop_last() =~= parts);
}

proof fn lemma_count_full(parts: Seq<Option<String>>)
    requires
        count_finished(parts) == parts.len(),
    ensures
        forall|i: int| 0 <= i < parts.len() ==> parts[i] is Some,
    decreases parts.len(),
{
    if parts.len() > 0 {
        lemma_count_le(parts.drop_last());
        lemma_count_full(parts.drop_last());
        assert forall|i: int| 0 <= i < parts.len() implies parts[i] is Some by {
            if i < parts.len() - 1 {
                assert(parts.drop_last()[i] == parts[i]);
            }
        }
    }
}

/// One in-progress multipart upload. `parts[k]` is the entity tag of part
/// `k + 1` once that part's upload has finished; a `None` entry is a part
/// still in flight.
#[derive(Debug)]
pub struct MultipartUploadSession {
    pub bucket: String,
    pub location: String,
    pub upload_id: String,
    pub state: SessionState,
    pub parts: Vec<Option<String>>,
    pub finished: usize,
}

/// The completion request the session emits: every part number with its
/// entity tag, in ascending part-number order.
#[derive(Debug)]
pub struct CompleteRequest {
    pub bucket: String,
    pub key: String,
    pub upload_id: String,
    pub parts: Vec<(usize, String)>,
}

/// The abort request the session emits: the remote discards every part
/// uploaded under this upload id.
#[derive(Debug)]
pub struct AbortRequest {
    pub bucket: String,
    pub key: String,
    pub upload_id: String,
}

impl MultipartUploadSession {
    /// The session's bookkeeping invariant.
    pub open spec fn wf(self) -> bool {
        &&& self.finished == count_finished(self.parts@)
        &&& self.state is Created ==> self.parts@.len() == 0
    }

    /// Part uploads issued and not yet finished.
    pub open spec fn in_flight(self) -> int {
        self.parts@.len() - self.finished
    }

    pub open spec fn is_terminated(self) -> bool {
        self.state is Completed || self.state is Aborted
    }

    /// Opens the session a successful create call began; a create response
    /// without an upload id is a missing-field error.
    pub fn open(bucket: String, location: String, upload_id: Option<String>) -> (r: Result<
        Self,
        Error,
    >)
        ensures
            r matches Ok(s) ==> {
                &&& upload_id == Some(s.upload_id)
                &&& s.bucket == bucket
                &&& s.location == location
                &&& s.state == SessionState::Created
                &&& s.parts@.len() == 0
                &&& s.wf()
            },
            r is Err <==> upload_id is None,
            r matches Err(e) ==> e == Error::Unknown,
    {
        match upload_id {
            None => Err(Error::Unknown),
            Some(id) => Ok(
                MultipartUploadSession {
                    bucket,
                    location,
                    upload_id: id,
                    state: SessionState::Created,
                    parts: Vec::new(),
                    finished: 0,
                },
            ),
        }
    }

    /// Issues the next part number if the session is live and a concurrency
    /// slot is free; a part beyond the cap waits until one frees.
    pub fn start_part(&mut self) -> (r: Result<usize, SessionError>)
        requires
            old(self).wf(),
        ensures
            final(self).wf(),
            old(self).is_terminated() ==> r == Err::<usize, _>(SessionError::AlreadyTerminated)
                && *final(self) == *old(self),
            !old(self).is_terminated() && old(self).in_flight() >= MAX_IN_FLIGHT ==> r
                == Err::<usize, _>(SessionError::NoSlotFree) && *final(self) == *old(self),
            !old(self).is_terminated() && old(self).in_flight() < MAX_IN_FLIGHT ==> {
                &&& r == Ok::<_, SessionError>((old(self).parts@.len() + 1) as usize)
                &&& final(self).parts@ == old(self).parts@.push(None::<String>)
                &&& final(self).state == SessionState::Uploading
                &&& final(self).finished == old(self).finished
                &&& final(self).bucket == old(self).bucket
                &&& final(self).location == old(self).location
                &&& final(self).upload_id == old(self).upload_id
            },
    {
        match self.state {
            SessionState::Completed => Err(SessionError::AlreadyTerminated),
            SessionState::Aborted => Err(SessionError::AlreadyTerminated),
            _ => {
                proof {
                    lemma_count_le(self.parts@);
                }
                if self.parts.len() - self.finished >= MAX_IN_FLIGHT {
                    return Err(SessionError::NoSlotFree);
                }
                proof {
                    lemma_count_push_none(self.parts@);
                }
                self.parts.push(None);
                self.state = SessionState::Uploading;
                Ok(self.parts.len())
            },
        }
    }

    /// Records that the upload of `part_number` finished with `e_tag`. Parts
    /// may finish in any order; each may finish once.
    pub fn finish_part(&mut self, part_number: usize, e_tag: String) -> (r: Result<
        (),
        SessionError,
    >)
        requires
            old(self).wf(),
        ensures
            final(self).wf(),
            old(self).is_terminated() ==> r == Err::<(), _>(SessionError::AlreadyTerminated)
                && *final(self) == *old(self),
            !old(self).is_terminated() && !(1 <= part_number <= old(self).parts@.len()) ==> r
                == Err::<(), _>(SessionError::PartUnknown) && *final(self) == *old(self),
            !old(self).is_terminated() && 1 <= part_number <= old(self).parts@.len() && old(
                self,
            ).parts@[part_number - 1] is Some ==> r == Err::<(), _>(
                SessionError::PartAlreadyFinished,
            ) && *final(self) == *old(self),
            !old(self).is_terminated() && 1 <= part_number <= old(self).parts@.len() && old(
                self,
            ).parts@[part_number - 1] is None ==> {
                &&& r == Ok::<(), SessionError>(())
                &&& final(self).parts@ == old(self).parts@.update(
                    part_number - 1,
                    Some(e_tag),
                )
                &&& final(self).finished == old(self).finished + 1
                &&& final(self).state == old(self).state
                &&& final(self).bucket == old(self).bucket
                &&& final(self).location == old(self).location
                &&& final(self).upload_id == old(self).upload_id
            },
    {
        match self.state {
            SessionState::Completed => Err(SessionError::AlreadyTerminated),
            SessionState::Aborted => Err(SessionError::AlreadyTerminated),
            _ => {
                if part_number == 0 || part_number > self.parts.len() {
                    return Err(SessionError::PartUnknown);
                }
                let idx = part_number - 1;
                let already = match &self.parts[idx] {
                    Some(_) => true,
                    None => false,
                };
                if already {
                    return Err(SessionError::PartAlreadyFinished);
                }
                proof {
                    lemma_count_update(self.parts@, idx as int, e_tag);
                    lemma_count_le(self.parts@.update(idx as int, Some(e_tag)));
                }
                self.parts.set(idx, Some(e_tag));
                self.finished = self.finished + 1;
                Ok(())
            },
        }
    }

    /// Why a completion request would be refused right now, if it would be.
    pub open spec fn spec_complete_refusal(self) -> Option<SessionError> {
        if self.is_terminated() {
            Some(SessionError::AlreadyTerminated)
        } else if self.parts@.len() == 0 {
            Some(SessionError::NoParts)
        } else if self.finished < self.parts@.len() {
            Some(SessionError::PartsOutstanding)
        } else {
            None
        }
    }

    /// Ends the session in completion: emits the request listing every part
    /// number with its entity tag in ascending part-number order. Refused
    /// with no uploaded parts, with a part still in flight, and on a session
    /// already completed or aborted.
    pub fn complete_request(&mut self) -> (r: Result<CompleteRequest, SessionError>)
        requires
            old(self).wf(),
        ensures
            final(self).wf(),
            old(self).spec_complete_refusal() matches Some(e) ==> r == Err::<
                CompleteRequest,
                _,
            >(e) && *final(self) == *old(self),
            old(self).spec_complete_refusal() is None ==> {
                &&& r matches Ok(req)
                &&& req.bucket == old(self).bucket
                &&& req.key == old(self).location
                &&& req.upload_id == old(self).upload_id
                &&& req.parts@.len() == old(self).parts@.len()
                &&& forall|i: int|
                    0 <= i < req.parts@.len() ==> (#[trigger] req.parts@[i]).0 == i + 1 && Some(
                        req.parts@[i].1,
                    ) == old(self).parts@[i]
                &&& final(self).state == SessionState::Completed
                &&& final(self).bucket == old(self).bucket
                &&& final(self).location == old(self).location
                &&& final(self).upload_id == old(self).upload_id
            },
    {
        match self.state {
            SessionState::Completed => Err(SessionError::AlreadyTerminated),
            SessionState::Aborted => Err(SessionError::AlreadyTerminated),
            _ => {
                if self.parts.len() == 0 {
                    return Err(SessionError::NoParts);
                }
                proof {
                    lemma_count_le(self.parts@);
                }
                if self.finished < self.parts.len() {
                    return Err(SessionError::PartsOutstanding);
                }
                proof {
                    lemma_count_full(self.parts@);
                }
                let total = self.parts.len();
                let ghost orig = self.parts@;
                let mut listed: Vec<(usize, String)> = Vec::new();
                while self.parts.len() > 0
                    invariant
                        forall|i: int| 0 <= i < orig.len() ==> orig[i] is Some,
                        self.parts@ =~= orig.skip(listed@.len() as int),
                        listed@.len() + self.parts@.len() == orig.len(),
                        total == orig.len(),
                        orig == old(self).parts@,
                        self.bucket == old(self).bucket,
                        self.location == old(self).location,
                        self.upload_id == old(self).upload_id,
                        forall|i: int|
                            0 <= i < listed@.len() ==> (#[trigger] listed@[i]).0 == i + 1 && Some(
                                listed@[i].1,
                            ) == orig[i],
                    decreases self.parts@.len(),
                {
                    let ghost k = listed@.len() as int;
                    let next = self.parts.remove(0);
                    proof {
                        assert(orig.skip(k)[0] == orig[k]);
                        assert(orig.skip(k).remove(0) =~= orig.skip(k + 1));
                    }
                    match next {
                        Some(tag) => {
                            let number = listed.len() + 1;
                            listed.push((number, tag));
                        },
                        None => {
                            proof {
                                assert(false);
                            }
                        },
                    }
                }
                self.state = SessionState::Completed;
                self.finished = 0;
                proof {
                    assert(self.parts@ =~= Seq::<Option<String>>::empty());
                }
                Ok(
                    CompleteRequest {
                        bucket: self.bucket.clone(),
                        key: self.location.clone(),
                        upload_id: self.upload_id.clone(),
                        parts: listed,
                    },
                )
            },
        }
    }

    /// Ends the session in abort: emits the request telling the remote to
    /// discard every part uploaded under this upload id. Refused on a
    /// session already completed or aborted.
    pub fn abort_request(&mut self) -> (r: Result<AbortRequest, SessionError>)
        requires
            old(self).wf(),
        ensures
            final(self).wf(),
            old(self).is_terminated() ==> r == Err::<AbortRequest, _>(
                SessionError::AlreadyTerminated,
            ) && *final(self) == *old(self),
            !old(self).is_terminated() ==> {
                &&& r matches Ok(req)
                &&& req.bucket == old(self).bucket
                &&& req.key == old(self).location
                &&& req.upload_id == old(self).upload_id
                &&& final(self).state == SessionState::Aborted
                &&& final(self).parts@ == old(self).parts@
                &&& final(self).finished == old(self).finished
                &&& final(self).bucket == old(self).bucket
                &&& final(self).location == old(self).location
                &&& final(self).upload_id == old(self).upload_id
            },
    {
        match self.state {
            SessionState::Completed => Err(SessionError::AlreadyTerminated),
            SessionState::Aborted => Err(SessionError::AlreadyTerminated),
            _ => {
                self.state = SessionState::Aborted;
                Ok(
                    AbortRequest {
                        bucket: self.bucket.clone(),
                        key: self.location.clone(),
                        upload_id: self.upload_id.clone(),
                    },
                )
            },
        }
    }
}

/// Slices a byte buffer into upload parts: every part but the last holds
/// exactly `part_size` bytes, the last holds the remainder, and joining the
/// parts in order reproduces the buffer.
pub fn split_into_parts(data: &[u8], part_size: usize) -> (parts: Vec<Vec<u8>>)
    requires
        part_size >= 1,
    ensures
        parts@.map_values(|p: Vec<u8>| p@).flatten() == data@,
        forall|i: int| 0 <= i < parts@.len() ==> 1 <= (#[trigger] parts@[i])@.len() <= part_size,
        forall|i: int| 0 <= i < parts@.len() - 1 ==> (#[trigger] parts@[i])@.len() == part_size,
{
    let n = data.len();
    let mut parts: Vec<Vec<u8>> = Vec::new();
    let mut i: usize = 0;
    while i < n
        invariant
            0 <= i <= n == data@.len(),
            part_size >= 1,
            parts@.map_values(|p: Vec<u8>| p@).flatten_alt() == data@.take(i as int),
            forall|k: int| 0 <= k < parts@.len() ==> 1 <= (#[trigger] parts@[k])@.len()
                <= part_size,
            i < n ==> forall|k: int| 0 <= k < parts@.len() ==> (#[trigger] parts@[k])@.len()
                == part_size,
            i == n ==> forall|k: int| 0 <= k < parts@.len() - 1 ==> (#[trigger] parts@[k])@.len()
                == part_size,
        decreases n - i,
    {
        let j = if n - i > part_size {
            i + part_size
        } else {
            n
        };
        let piece = vstd::slice::slice_to_vec(vstd::slice::slice_subrange(data, i, j));
        let ghost before = parts@.map_values(|p: Vec<u8>| p@);
        parts.push(piece);
        proof {
            let after = parts@.map_values(|p: Vec<u8>| p@);
            assert(after.drop_last() =~= before);
            assert(after.flatten_alt() == before.flatten_alt() + data@.subrange(
                i as int,
                j as int,
            ));
            assert(after.flatten_alt() =~= data@.take(j as int));
        }
        i = j;
    }
    proof {
        let m = parts@.map_values(|p: Vec<u8>| p@);
        m.lemma_flatten_and_flatten_alt_are_equivalent();
        assert(data@.take(n as int) =~= data@);
    }
    parts
}

/// The bytes the remote assembles when told to join, in the order listed,
/// the content uploaded under each listed part number (1-based).
pub open spec fn spec_assembled(contents: Seq<Seq<u8>>, order: Seq<int>) -> Seq<u8> {
    Seq::new(order.len(), |i: int| contents[order[i] - 1]).flatten()
}

/// A completion request lists every part number in ascending order, so the
/// object the remote assembles from it is the concatenation of all submitted
/// parts in part-number order, whatever order the uploads finished in.
pub proof fn lemma_completed_object_content(
    contents: Seq<Seq<u8>>,
    req_parts: Seq<(usize, String)>,
)
    requires
        req_parts.len() == contents.len(),
        forall|i: int| 0 <= i < req_parts.len() ==> (#[trigger] req_parts[i]).0 == i + 1,
    ensures
        spec_assembled(contents, req_parts.map_values(|p: (usize, String)| p.0 as int))
            == contents.flatten(),
{
    let order = req_parts.map_values(|p: (usize, String)| p.0 as int);
    assert(Seq::new(order.len(), |i: int| contents[order[i] - 1]) =~= contents);
}

/// Completing with no uploaded parts, completing an already-completed
/// session, and completing after an abort are each refused, so neither a
/// second object nor a corrupt one can be assembled; and since an aborted
/// session never emits a completion request, the abort path leaves no object
/// to appear at the target location.
pub proof fn lemma_complete_rejections(s: MultipartUploadSession)
    ensures
        s.state is Completed ==> s.spec_complete_refusal() == Some(SessionError::AlreadyTerminated),
        s.state is Aborted ==> s.spec_complete_refusal() == Some(SessionError::AlreadyTerminated),
        !s.is_terminated() && s.parts@.len() == 0 ==> s.spec_complete_refusal() == Some(
            SessionError::NoParts,
        ),
{
}

} // verus!
