//! Set reconciliation: a session holds the events of the relay that a filter selects, and
//! answers the messages of a client that compares its own events with them.

use crate::protocol::EventId;
use negentropy::{Id, Negentropy, NegentropyStorageVector};
use vstd::prelude::*;

verus! {

#[verifier::external_type_specification]
#[verifier::external_body]
pub struct ExNegentropyStorageVector(NegentropyStorageVector);

#[verifier::external_type_specification]
#[verifier::external_body]
#[verifier::reject_recursive_types(T)]
pub struct ExNegentropy<'a, T>(Negentropy<'a, T>);

/// An event as it is compared: its time and its identifier.
pub type Item = (u64, EventId);

/// The items that a storage holds.
pub uninterp spec fn storage_items(storage: NegentropyStorageVector) -> Set<Item>;

/// Whether a storage takes no more items.
pub uninterp spec fn storage_sealed(storage: NegentropyStorageVector) -> bool;

/// The items that a session compares.
pub uninterp spec fn session_items(session: Negentropy<'static, NegentropyStorageVector>) -> Set<
    Item,
>;

/// The limit of the size of a session's answers.
pub uninterp spec fn session_limit(session: Negentropy<'static, NegentropyStorageVector>) -> u64;

/// Whether a session answers messages, and has not sent the first message itself.
pub uninterp spec fn session_answers(
    session: Negentropy<'static, NegentropyStorageVector>,
) -> bool;

/// The answer to a message, given the items and the limit, or the text of the crate's error.
pub uninterp spec fn reconciled(items: Set<Item>, limit: u64, query: Seq<u8>) -> Result<
    Seq<u8>,
    Seq<char>,
>;

/// `NegentropyStorageVector::new`: a storage without items that takes items.
#[verifier::external_body]
fn new_storage() -> (r: NegentropyStorageVector)
    ensures
        storage_items(r) == Set::<Item>::empty(),
        !storage_sealed(r),
{
    NegentropyStorageVector::new()
}

/// `NegentropyStorageVector::insert`: adds an item to a storage that is not sealed.
#[verifier::external_body]
fn insert_item(storage: &mut NegentropyStorageVector, timestamp: u64, id: EventId) -> (r: Result<
    (),
    String,
>)
    requires
        !storage_sealed(*old(storage)),
    ensures
        r is Ok,
        storage_items(*final(storage)) == storage_items(*old(storage)).insert((timestamp, id)),
        !storage_sealed(*final(storage)),
{
    storage.insert(timestamp, Id::from_byte_array(id.bytes)).map_err(|e| e.to_string())
}

/// `NegentropyStorageVector::seal`: sorts the items of a storage that is not sealed and drops
/// repetitions.
#[verifier::external_body]
fn seal_storage(storage: &mut NegentropyStorageVector) -> (r: Result<(), String>)
    requires
        !storage_sealed(*old(storage)),
    ensures
        r is Ok,
        storage_items(*final(storage)) == storage_items(*old(storage)),
        storage_sealed(*final(storage)),
{
    storage.seal().map_err(|e| e.to_string())
}

/// `Negentropy::owned`: a session over a storage. The limit is zero, for none, or at least
/// 4096.
#[verifier::external_body]
fn open_session(storage: NegentropyStorageVector, limit: u64) -> (r: Result<
    Negentropy<'static, NegentropyStorageVector>,
    String,
>)
    requires
        storage_sealed(storage),
    ensures
        r is Ok <==> limit == 0 || limit >= 4096,
        r matches Ok(session) ==> session_items(session) == storage_items(storage) && session_limit(
            session,
        ) == limit && session_answers(session),
{
    Negentropy::owned(storage, limit).map_err(|e| e.to_string())
}

/// `Negentropy::reconcile`: the answer to a message. It depends on the items, the limit and
/// the message, and leaves the items and the limit as they are.
#[verifier::external_body]
fn reconcile_message(
    session: &mut Negentropy<'static, NegentropyStorageVector>,
    query: &Vec<u8>,
) -> (r: Result<Vec<u8>, String>)
    requires
        session_answers(*old(session)),
    ensures
        session_items(*final(session)) == session_items(*old(session)),
        session_limit(*final(session)) == session_limit(*old(session)),
        session_answers(*final(session)),
        match r {
            Ok(answer) => reconciled(
                session_items(*old(session)),
                session_limit(*old(session)),
                query@,
            ) == Ok::<Seq<u8>, Seq<char>>(answer@),
            Err(e) => reconciled(session_items(*old(session)), session_limit(*old(session)), query@)
                == Err::<Seq<u8>, Seq<char>>(e@),
        },
{
    session.reconcile(query).map_err(|e| e.to_string())
}

/// The limit of the size of an answer, in bytes.
pub const FRAME_LIMIT: u64 = 60000;

/// A session that answers a client.
pub struct ReconciliationSession {
    inner: Negentropy<'static, NegentropyStorageVector>,
}

impl ReconciliationSession {
    /// The items that the session compares.
    pub closed spec fn items(self) -> Set<Item> {
        session_items(self.inner)
    }

    /// The session answers with the relay's limit.
    pub closed spec fn wf(self) -> bool {
        session_answers(self.inner) && session_limit(self.inner) == FRAME_LIMIT
    }

    /// A session over the events of a list.
    pub fn open(items: &Vec<(EventId, u64)>) -> (r: Result<ReconciliationSession, String>)
        ensures
            r matches Ok(session) && session.wf() && session.items() == item_set(items@),
    {
        let mut storage = new_storage();
        let mut i: usize = 0;
        proof {
            assert(item_set(items@.take(0)) =~= Set::empty());
        }
        while i < items.len()
            invariant
                i <= items@.len(),
                !storage_sealed(storage),
                storage_items(storage) == item_set(items@.take(i as int)),
            decreases items@.len() - i,
        {
            let inserted = insert_item(&mut storage, items[i].1, items[i].0);
            if let Err(e) = inserted {
                return Err(e);
            }
            proof {
                let s = items@;
                assert forall|x: Item| #[trigger]
                    item_set(s.take(i + 1)).contains(x) <==> item_set(s.take(i as int)).insert(
                        (s[i as int].1, s[i as int].0),
                    ).contains(x) by {
                    let t = s.take(i as int);
                    let n = s.take(i + 1);
                    if t.contains((x.1, x.0)) {
                        let k = choose|k: int| 0 <= k < t.len() && t[k] == (x.1, x.0);
                        assert(n[k] == (x.1, x.0));
                    }
                    assert(n[i as int] == s[i as int]);
                    if n.contains((x.1, x.0)) {
                        let k = choose|k: int| 0 <= k < n.len() && n[k] == (x.1, x.0);
                        if k < i {
                            assert(t[k] == (x.1, x.0));
                        }
                    }
                }
                assert(item_set(s.take(i + 1)) =~= item_set(s.take(i as int)).insert(
                    (s[i as int].1, s[i as int].0),
                ));
            }
            i = i + 1;
        }
        proof {
            assert(items@.take(items@.len() as int) =~= items@);
        }
        let sealed = seal_storage(&mut storage);
        if let Err(e) = sealed {
            return Err(e);
        }
        match open_session(storage, FRAME_LIMIT) {
            Ok(inner) => Ok(ReconciliationSession { inner }),
            Err(e) => Err(e),
        }
    }

    /// The answer to a message of the client.
    pub fn reconcile(&mut self, query: &Vec<u8>) -> (r: Result<Vec<u8>, String>)
        requires
            old(self).wf(),
        ensures
            final(self).wf(),
            final(self).items() == old(self).items(),
            match r {
                Ok(answer) => reconciled(old(self).items(), FRAME_LIMIT, query@) == Ok::<
                    Seq<u8>,
                    Seq<char>,
                >(answer@),
                Err(e) => reconciled(old(self).items(), FRAME_LIMIT, query@) == Err::<
                    Seq<u8>,
                    Seq<char>,
                >(e@),
            },
    {
        reconcile_message(&mut self.inner, query)
    }
}

/// The items of a list of events.
pub open spec fn item_set(items: Seq<(EventId, u64)>) -> Set<Item> {
    Set::new(|x: Item| items.contains((x.1, x.0)))
}

} // verus!
