use vstd::prelude::*;
use crate::address::{Bucket, name_of, path_of, path_view};
use crate::diff::{get_missing_keys, missing_keys, needs_copy};
use crate::key_path::{format_key, joined_key, part_of};

verus! {

/// The arguments of a sync: both store paths and the profile for each.
pub struct Args {
    /// The store path of the source, `[s3://]<bucket>[/<sub-path>]`.
    pub source: String,
    /// The profile used to reach the source.
    pub src_profile: String,
    /// The store path of the destination, `[s3://]<bucket>[/<sub-path>]`.
    pub destination: String,
    /// The profile used to reach the destination.
    pub dest_profile: String,
}

/// The stages of a sync.
#[derive(Debug, Clone, Copy, PartialEq, Eq, Structural)]
pub enum Phase {
    Init,
    ClientsReady,
    Enumerated,
    Diffed,
    Transferring,
    Done,
    Failed,
}

/// Why a sync stopped.
#[derive(Debug, Clone)]
pub enum SyncError {
    /// A client could not be set up for a profile.
    ClientInit,
    /// A page of keys could not be listed.
    Enumeration,
    /// A key had no part to be formed from.
    InvalidKey,
    /// Fetching or storing the object under this relative key failed.
    Transfer { key: String },
}

/// What a sync error says, as values.
pub enum SyncFault {
    ClientInit,
    Enumeration,
    InvalidKey,
    Transfer(Seq<char>),
}

/// A bucket's sub-path, with the whole bucket read as the empty sub-path.
pub open spec fn path_part(p: Option<Seq<char>>) -> Seq<char> {
    match p {
        Some(s) => s,
        None => Seq::empty(),
    }
}

/// The error as values.
pub open spec fn fault_of(e: SyncError) -> SyncFault {
    match e {
        SyncError::ClientInit => SyncFault::ClientInit,
        SyncError::Enumeration => SyncFault::Enumeration,
        SyncError::InvalidKey => SyncFault::InvalidKey,
        SyncError::Transfer { key } => SyncFault::Transfer(key@),
    }
}

/// One object to copy: its relative key, the key to fetch it from in the
/// source and the key to store it under in the destination.
pub struct Transfer {
    pub key: String,
    pub get_key: String,
    pub put_key: String,
}

/// The abstract state of a sync.
pub struct SyncState {
    pub phase: Phase,
    pub source_name: Seq<char>,
    pub source_path: Option<Seq<char>>,
    pub destination_name: Seq<char>,
    pub destination_path: Option<Seq<char>>,
    /// The keys to copy, in order.
    pub missing: Seq<Seq<char>>,
    /// How many of them have been copied.
    pub copied: nat,
    pub fault: Option<SyncFault>,
}

/// The state after the clients were set up, or failed to be.
pub open spec fn after_clients(s: SyncState, ok: bool) -> SyncState {
    if s.phase != Phase::Init {
        s
    } else if ok {
        SyncState { phase: Phase::ClientsReady, ..s }
    } else {
        SyncState { phase: Phase::Failed, fault: Some(SyncFault::ClientInit), ..s }
    }
}

/// The state after both buckets were listed: the keys to copy are the diff.
pub open spec fn after_listing(
    s: SyncState,
    source_keys: Seq<Seq<char>>,
    destination_keys: Seq<Seq<char>>,
) -> SyncState {
    if s.phase != Phase::ClientsReady {
        s
    } else {
        SyncState {
            phase: Phase::Diffed,
            missing: missing_keys(source_keys, destination_keys),
            copied: 0,
            ..s
        }
    }
}

/// The state after a listing failed.
pub open spec fn after_listing_failed(s: SyncState) -> SyncState {
    if s.phase != Phase::ClientsReady {
        s
    } else {
        SyncState { phase: Phase::Failed, fault: Some(SyncFault::Enumeration), ..s }
    }
}

/// The state once the next transfer is asked for: the next key is in flight,
/// or, with none left, the sync is done.
pub open spec fn after_start(s: SyncState) -> SyncState {
    if s.phase != Phase::Diffed {
        s
    } else if s.copied < s.missing.len() {
        SyncState { phase: Phase::Transferring, ..s }
    } else {
        SyncState { phase: Phase::Done, ..s }
    }
}

/// The key handed out for transfer in state `s`, if any.
pub open spec fn started_key(s: SyncState) -> Option<Seq<char>> {
    if s.phase == Phase::Diffed && s.copied < s.missing.len() {
        Some(s.missing[s.copied as int])
    } else {
        None
    }
}

/// The state after the transfer in flight succeeded or failed. A failure
/// stops the sync and names the key.
pub open spec fn after_finish(s: SyncState, ok: bool) -> SyncState {
    if s.phase != Phase::Transferring {
        s
    } else if ok {
        SyncState { phase: Phase::Diffed, copied: s.copied + 1, ..s }
    } else {
        SyncState {
            phase: Phase::Failed,
            fault: Some(SyncFault::Transfer(s.missing[s.copied as int])),
            ..s
        }
    }
}

/// The decisions of one sync run. The caller performs each step that it asks
/// for (set up clients, list both buckets, copy one object) and reports back.
pub struct SyncRun {
    source: Bucket,
    destination: Bucket,
    phase: Phase,
    missing: Vec<String>,
    copied: usize,
    error: Option<SyncError>,
}

impl SyncRun {
    pub closed spec fn view(&self) -> SyncState {
        SyncState {
            phase: self.phase,
            source_name: self.source.name@,
            source_path: path_view(self.source.path),
            destination_name: self.destination.name@,
            destination_path: path_view(self.destination.path),
            missing: self.missing.deep_view(),
            copied: self.copied as nat,
            fault: match self.error {
                Some(e) => Some(fault_of(e)),
                None => None,
            },
        }
    }

    /// The run's internal consistency: the transfer counter stays within the
    /// keys to copy, which are never empty.
    pub closed spec fn wf(&self) -> bool {
        &&& self.copied <= self.missing.len()
        &&& (self.phase == Phase::Transferring ==> self.copied < self.missing.len())
        &&& forall|i: int|
            0 <= i < self.missing.len() ==> #[trigger] self.missing.deep_view()[i].len() > 0
    }

    /// A run for the given arguments, before any client is set up.
    pub fn new(args: &Args) -> (r: SyncRun)
        ensures
            r.wf(),
            r.view().phase == Phase::Init,
            r.view().source_name == name_of(args.source@),
            r.view().source_path == path_of(args.source@),
            r.view().destination_name == name_of(args.destination@),
            r.view().destination_path == path_of(args.destination@),
            r.view().missing.len() == 0,
            r.view().copied == 0,
            r.view().fault.is_none(),
    {
        let r = SyncRun {
            source: Bucket::new(args.source.as_str()),
            destination: Bucket::new(args.destination.as_str()),
            phase: Phase::Init,
            missing: Vec::new(),
            copied: 0,
            error: None,
        };
        assert(r.missing.deep_view() =~= Seq::<Seq<char>>::empty());
        r
    }

    /// The source bucket.
    pub fn source(&self) -> (r: &Bucket)
        ensures
            r.name@ == self.view().source_name,
            path_view(r.path) == self.view().source_path,
    {
        &self.source
    }

    /// The destination bucket.
    pub fn destination(&self) -> (r: &Bucket)
        ensures
            r.name@ == self.view().destination_name,
            path_view(r.path) == self.view().destination_path,
    {
        &self.destination
    }

    /// The stage the run is in.
    pub fn phase(&self) -> (r: Phase)
        ensures
            r == self.view().phase,
    {
        self.phase
    }

    /// How many objects have been copied.
    pub fn transferred(&self) -> (r: usize)
        ensures
            r == self.view().copied,
    {
        self.copied
    }

    /// The error that stopped the run, if it failed.
    pub fn error(&self) -> (r: &Option<SyncError>)
        ensures
            match *r {
                Some(e) => self.view().fault == Some(fault_of(e)),
                None => self.view().fault.is_none(),
            },
    {
        &self.error
    }

    /// Reports whether both clients were set up.
    pub fn clients_ready(&mut self, ok: bool)
        requires
            old(self).wf(),
        ensures
            final(self).wf(),
            final(self).view() == after_clients(old(self).view(), ok),
    {
        if self.phase == Phase::Init {
            if ok {
                self.phase = Phase::ClientsReady;
            } else {
                self.phase = Phase::Failed;
                self.error = Some(SyncError::ClientInit);
            }
        }
    }

    /// Reports that a listing failed.
    pub fn listing_failed(&mut self)
        requires
            old(self).wf(),
        ensures
            final(self).wf(),
            final(self).view() == after_listing_failed(old(self).view()),
    {
        if self.phase == Phase::ClientsReady {
            self.phase = Phase::Failed;
            self.error = Some(SyncError::Enumeration);
        }
    }

    /// Hands over the relative keys of both buckets; the keys to copy become
    /// those of the source that the destination lacks.
    pub fn listed(&mut self, source_keys: &Vec<String>, destination_keys: &Vec<String>)
        requires
            old(self).wf(),
        ensures
            final(self).wf(),
            final(self).view() == after_listing(
                old(self).view(),
                source_keys.deep_view(),
                destination_keys.deep_view(),
            ),
    {
        if self.phase == Phase::ClientsReady {
            self.phase = Phase::Enumerated;
            let missing: Vec<String> = get_missing_keys(source_keys, destination_keys);
            proof {
                broadcast use Seq::lemma_filter_pred;

                assert forall|i: int| 0 <= i < missing.len() implies #[trigger] missing.deep_view()[i].len() > 0 by {
                    assert(needs_copy(destination_keys.deep_view())(missing.deep_view()[i]));
                }
            }
            self.missing = missing;
            self.copied = 0;
            self.phase = Phase::Diffed;
        }
    }

    /// Asks for the next object to copy. With none left the run is done; in
    /// any stage but between transfers nothing is handed out.
    pub fn start_transfer(&mut self) -> (r: Option<Transfer>)
        requires
            old(self).wf(),
        ensures
            final(self).wf(),
            final(self).view() == after_start(old(self).view()),
            match r {
                Some(t) => started_key(old(self).view()) == Some(t.key@) && t.get_key@
                    == joined_key(
                    path_part(old(self).view().source_path),
                    t.key@,
                ) && t.put_key@
                    == joined_key(
                    path_part(old(self).view().destination_path),
                    t.key@,
                ),
                None => started_key(old(self).view()).is_none(),
            },
    {
        if self.phase != Phase::Diffed {
            return None;
        }
        if self.copied >= self.missing.len() {
            self.phase = Phase::Done;
            return None;
        }
        let key: String = self.missing[self.copied].clone();
        assert(key@ == self.missing.deep_view()[self.copied as int]);
        assert(part_of(self.source.path) == path_part(path_view(self.source.path)));
        assert(part_of(self.destination.path) == path_part(path_view(self.destination.path)));
        let some_key: Option<String> = Some(key.clone());
        let get_key: String = match format_key([&self.source.path, &some_key]) {
            Ok(k) => k,
            Err(_) => {
                assert(false);
                String::new()
            },
        };
        let put_key: String = match format_key([&self.destination.path, &some_key]) {
            Ok(k) => k,
            Err(_) => {
                assert(false);
                String::new()
            },
        };
        self.phase = Phase::Transferring;
        Some(Transfer { key, get_key, put_key })
    }

    /// Reports how the transfer in flight ended. A failure stops the run: no
    /// later key is handed out.
    pub fn finish_transfer(&mut self, ok: bool)
        requires
            old(self).wf(),
        ensures
            final(self).wf(),
            final(self).view() == after_finish(old(self).view(), ok),
    {
        if self.phase == Phase::Transferring {
            if ok {
                self.copied = self.copied + 1;
                self.phase = Phase::Diffed;
            } else {
                let key: String = self.missing[self.copied].clone();
                assert(key@ == self.missing.deep_view()[self.copied as int]);
                self.error = Some(SyncError::Transfer { key });
                self.phase = Phase::Failed;
            }
        }
    }
}

/// A failed transfer stops the sync for good: the run fails with an error
/// naming the key in flight, and from then on no event moves it and no later
/// key is handed out.
pub proof fn lemma_transfer_failure_halts(s: SyncState, ok: bool)
    requires
        s.phase == Phase::Transferring,
        s.copied < s.missing.len(),
    ensures
        ({
            let f = after_finish(s, false);
            &&& f.phase == Phase::Failed
            &&& f.fault == Some(SyncFault::Transfer(s.missing[s.copied as int]))
            &&& f.copied == s.copied
            &&& started_key(f).is_none()
            &&& after_start(f) == f
            &&& after_finish(f, ok) == f
            &&& after_clients(f, ok) == f
            &&& after_listing_failed(f) == f
            &&& forall|a: Seq<Seq<char>>, b: Seq<Seq<char>>| after_listing(f, a, b) == f
        }),
{
}

/// Transfers hand out the keys to copy in order: after `n` successful
/// transfers the next key handed out is the n-th missing key.
pub proof fn lemma_transfers_in_order(s: SyncState)
    requires
        s.phase == Phase::Diffed,
        s.copied < s.missing.len(),
    ensures
        started_key(s) == Some(s.missing[s.copied as int]),
        after_finish(after_start(s), true).copied == s.copied + 1,
        after_finish(after_start(s), true).phase == Phase::Diffed,
{
}

} // verus!
