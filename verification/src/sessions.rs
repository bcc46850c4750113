//! The registry of interaction sessions: short-lived records that tie a
//! merchant's request to the customer's visit of the hosted page. A session
//! is claimed at most once and is gone once it is resolved.

use crate::card_number::CardNumber;
use crate::entropy::random_bits;
use crate::init_payment::OperationStatus;
use crate::text::{hex_numeral, hex_string};
use std::collections::HashMap;
use vstd::prelude::*;
use vstd::string::*;
use vstd::set_lib::lemma_len_subset;

verus! {

broadcast use vstd::std_specs::hash::group_hash_axioms;

/// The identifier of a session: the 128 bits of a UUID.
#[derive(Clone, Copy, Debug, PartialEq, Eq, Structural, Hash)]
pub struct SessionId(pub u128);

impl SessionId {
    /// The identifier in the usual writing of a UUID: thirty-two lowercase
    /// hexadecimal digits, most significant first, in groups of eight, four,
    /// four, four and twelve with hyphens between them.
    pub open spec fn text(self) -> Seq<char> {
        let n = self.0 as nat;
        hex_numeral(n / 0x1_0000_0000_0000_0000_0000_0000, 8) + seq!['-'] + hex_numeral(
            n / 0x1_0000_0000_0000_0000_0000,
            4,
        ) + seq!['-'] + hex_numeral(n / 0x1_0000_0000_0000_0000, 4) + seq!['-'] + hex_numeral(
            n / 0x1_0000_0000_0000,
            4,
        ) + seq!['-'] + hex_numeral(n, 12)
    }

    /// Writes the identifier as a UUID is written.
    pub fn to_string(&self) -> (s: String)
        ensures
            s@ == self.text(),
    {
        proof {
            reveal_strlit("-");
        }
        let n = self.0;
        let mut s = hex_string(n / 0x1_0000_0000_0000_0000_0000_0000, 8);
        s.append("-");
        s.append(hex_string(n / 0x1_0000_0000_0000_0000_0000, 4).as_str());
        s.append("-");
        s.append(hex_string(n / 0x1_0000_0000_0000_0000, 4).as_str());
        s.append("-");
        s.append(hex_string(n / 0x1_0000_0000_0000, 4).as_str());
        s.append("-");
        s.append(hex_string(n, 12).as_str());
        assert(s@ =~= self.text());
        s
    }
}

/// Why a session could not be had.
#[derive(Clone, Copy, Debug, PartialEq, Eq, Structural)]
pub enum SessionError {
    /// No live session has the identifier, or the session was claimed before.
    SessionNotFound,
}

/// What a session is for, with the pages to send the customer to afterwards.
#[derive(Debug)]
pub enum SessionKind {
    Payment { amount: i64, success_url: String, fail_url: String },
    RegisterCardToken { success_url: String, fail_url: String },
}

/// What a session is for, as contracts speak of it.
pub enum SessionKindView {
    Payment { amount: int, success_url: Seq<char>, fail_url: Seq<char> },
    RegisterCardToken { success_url: Seq<char>, fail_url: Seq<char> },
}

impl SessionKindView {
    /// Where the customer goes after success.
    pub open spec fn success_url(self) -> Seq<char> {
        match self {
            SessionKindView::Payment { success_url, .. } => success_url,
            SessionKindView::RegisterCardToken { success_url, .. } => success_url,
        }
    }

    /// Where the customer goes after failure.
    pub open spec fn fail_url(self) -> Seq<char> {
        match self {
            SessionKindView::Payment { fail_url, .. } => fail_url,
            SessionKindView::RegisterCardToken { fail_url, .. } => fail_url,
        }
    }
}

impl View for SessionKind {
    type V = SessionKindView;

    open spec fn view(&self) -> SessionKindView {
        match self {
            SessionKind::Payment { amount, success_url, fail_url } => SessionKindView::Payment {
                amount: *amount as int,
                success_url: success_url@,
                fail_url: fail_url@,
            },
            SessionKind::RegisterCardToken {
                success_url,
                fail_url,
            } => SessionKindView::RegisterCardToken {
                success_url: success_url@,
                fail_url: fail_url@,
            },
        }
    }
}

impl Clone for SessionKind {
    fn clone(&self) -> (copy: Self)
        ensures
            copy@ == self@,
    {
        match self {
            SessionKind::Payment { amount, success_url, fail_url } => SessionKind::Payment {
                amount: *amount,
                success_url: success_url.clone(),
                fail_url: fail_url.clone(),
            },
            SessionKind::RegisterCardToken {
                success_url,
                fail_url,
            } => SessionKind::RegisterCardToken {
                success_url: success_url.clone(),
                fail_url: fail_url.clone(),
            },
        }
    }
}

impl SessionKind {
    /// Where the customer goes after success.
    pub fn success_url(&self) -> (url: &String)
        ensures
            url@ == self@.success_url(),
    {
        match self {
            SessionKind::Payment { success_url, .. } => success_url,
            SessionKind::RegisterCardToken { success_url, .. } => success_url,
        }
    }

    /// Where the customer goes after failure.
    pub fn fail_url(&self) -> (url: &String)
        ensures
            url@ == self@.fail_url(),
    {
        match self {
            SessionKind::Payment { fail_url, .. } => fail_url,
            SessionKind::RegisterCardToken { fail_url, .. } => fail_url,
        }
    }
}

/// A live session as the registry holds it.
pub struct SessionView {
    pub kind: SessionKindView,
    /// The card number of the store that the session was opened for.
    pub store_card: CardNumber,
    /// Whether the session has been claimed.
    pub claimed: bool,
}

/// The live sessions, by the number of their identifier.
pub type RegistryView = Map<u128, SessionView>;

/// Whether `id` is the least identifier that no live session has.
pub open spec fn is_first_free(sessions: RegistryView, id: u128) -> bool {
    &&& !sessions.contains_key(id)
    &&& forall|q: u128| q < id ==> #[trigger] sessions.contains_key(q)
}

/// The least identifier that no live session has.
pub open spec fn first_free_id(sessions: RegistryView) -> u128 {
    choose|id: u128| is_first_free(sessions, id)
}

/// The identifier that a new session gets where `preferred` was drawn for
/// it: `preferred` itself unless a live session has it, else the least free.
pub open spec fn id_for(sessions: RegistryView, preferred: u128) -> u128 {
    if sessions.contains_key(preferred) {
        first_free_id(sessions)
    } else {
        preferred
    }
}

/// Whether the session `id` can be claimed: it is live and was not claimed.
pub open spec fn claimable(sessions: RegistryView, id: u128) -> bool {
    sessions.contains_key(id) && !sessions[id].claimed
}

/// The registry after the session `id` was claimed.
pub open spec fn after_claim(sessions: RegistryView, id: u128) -> RegistryView {
    sessions.insert(id, SessionView { claimed: true, ..sessions[id] })
}

/// The registry after the session `id` was resolved.
pub open spec fn after_resolve(sessions: RegistryView, id: u128) -> RegistryView {
    sessions.remove(id)
}

/// At most one claim: once a session has been claimed it cannot be claimed
/// again, whatever else is created, claimed or looked at in between is of no
/// matter to that.
pub proof fn lemma_claim_at_most_once(sessions: RegistryView, id: u128)
    requires
        claimable(sessions, id),
    ensures
        !claimable(after_claim(sessions, id), id),
        forall|other: u128|
            other != id ==> (claimable(after_claim(sessions, id), other) <==> claimable(
                sessions,
                other,
            )),
{
}

/// Once resolved, a session is gone: it cannot be claimed, and resolving it
/// again changes nothing.
pub proof fn lemma_resolve_once(sessions: RegistryView, id: u128)
    ensures
        !claimable(after_resolve(sessions, id), id),
        !after_resolve(sessions, id).contains_key(id),
        after_resolve(after_resolve(sessions, id), id) == after_resolve(sessions, id),
{
    assert(after_resolve(after_resolve(sessions, id), id) =~= after_resolve(sessions, id));
}

/// The identifiers below `n` are `n` in number.
proof fn lemma_ids_below(n: u128)
    ensures
        Set::new(|k: u128| k < n).finite(),
        Set::new(|k: u128| k < n).len() == n,
    decreases n,
{
    let below = Set::new(|k: u128| k < n);
    if n == 0 {
        assert(below =~= Set::empty());
    } else {
        let m = (n - 1) as u128;
        lemma_ids_below(m);
        assert(below =~= Set::new(|k: u128| k < m).insert(m));
    }
}

/// Where every identifier below `n` is taken, at least `n` sessions are live.
proof fn lemma_taken_ids(sessions: RegistryView, n: u128)
    requires
        sessions.dom().finite(),
        forall|q: u128| q < n ==> #[trigger] sessions.contains_key(q),
    ensures
        n <= sessions.dom().len(),
{
    let below = Set::new(|k: u128| k < n);
    lemma_ids_below(n);
    assert forall|k: u128| below.contains(k) implies sessions.dom().contains(k) by {
        assert(sessions.contains_key(k));
    }
    lemma_len_subset(below, sessions.dom());
}

/// The least free identifier is the only one that `is_first_free` holds of.
pub proof fn lemma_first_free_id(sessions: RegistryView, id: u128)
    requires
        is_first_free(sessions, id),
    ensures
        first_free_id(sessions) == id,
{
    let chosen = choose|id: u128| is_first_free(sessions, id);
    assert(is_first_free(sessions, chosen));
    if chosen < id {
        assert(sessions.contains_key(chosen));
    } else if id < chosen {
        assert(sessions.contains_key(id));
    }
}

/// What a claimer gets of a session, as contracts speak of it.
pub struct InteractionSessionView {
    pub id: SessionId,
    pub kind: SessionKindView,
    pub store_card: CardNumber,
}

/// What a claimer gets of a session: its identifier, what it is for, and the
/// store's card number. None of it changes afterwards.
#[derive(Debug)]
pub struct InteractionSession {
    id: SessionId,
    session_type: SessionKind,
    store_card: CardNumber,
}

impl View for InteractionSession {
    type V = InteractionSessionView;

    closed spec fn view(&self) -> InteractionSessionView {
        InteractionSessionView {
            id: self.id,
            kind: self.session_type@,
            store_card: self.store_card,
        }
    }
}

impl InteractionSession {
    /// The session's identifier.
    pub fn id(&self) -> (id: SessionId)
        ensures
            id == self@.id,
    {
        self.id
    }

    /// What the session is for.
    pub fn session_type(&self) -> (kind: &SessionKind)
        ensures
            kind@ == self@.kind,
    {
        &self.session_type
    }

    /// The card number of the store that the session was opened for.
    pub fn store_card(&self) -> (card: CardNumber)
        ensures
            card == self@.store_card,
    {
        self.store_card
    }
}

/// The descriptor of the live session `id`.
pub open spec fn descriptor(sessions: RegistryView, id: u128) -> InteractionSessionView {
    InteractionSessionView {
        id: SessionId(id),
        kind: sessions[id].kind,
        store_card: sessions[id].store_card,
    }
}

/// What is to be handed to whoever awaits the end of a session.
#[derive(Clone, Copy, Debug, PartialEq, Eq, Structural)]
pub struct Delivery {
    pub session: SessionId,
    pub outcome: OperationStatus,
}

struct SessionRecord {
    session_type: SessionKind,
    store_card: CardNumber,
    claimed: bool,
}

impl View for SessionRecord {
    type V = SessionView;

    closed spec fn view(&self) -> SessionView {
        SessionView {
            kind: self.session_type@,
            store_card: self.store_card,
            claimed: self.claimed,
        }
    }
}

/// The registry of live sessions.
pub struct InteractionSessions {
    sessions: HashMap<u128, SessionRecord>,
}

impl View for InteractionSessions {
    type V = RegistryView;

    closed spec fn view(&self) -> RegistryView {
        self.sessions@.map_values(|r: SessionRecord| r@)
    }
}

impl InteractionSessions {
    /// A registry without sessions.
    pub fn new() -> (registry: Self)
        ensures
            registry@ == Map::<u128, SessionView>::empty(),
    {
        let registry = InteractionSessions { sessions: HashMap::new() };
        assert(registry@ =~= Map::<u128, SessionView>::empty());
        registry
    }

    /// The number of live sessions.
    pub fn len(&self) -> (count: usize)
        ensures
            count == self@.len(),
            self@.dom().finite(),
    {
        assert(self@.dom() =~= self.sessions@.dom());
        self.sessions.len()
    }

    /// The least identifier that no live session has.
    fn next_free_id(&self) -> (id: u128)
        ensures
            id == first_free_id(self@),
            !self@.contains_key(id),
    {
        let count = self.len();
        let mut id: u128 = 0;
        loop
            invariant
                id <= count,
                count == self@.len(),
                self@.dom().finite(),
                forall|q: u128| q < id ==> #[trigger] self@.contains_key(q),
            decreases count - id,
        {
            if !self.sessions.contains_key(&id) {
                proof {
                    lemma_first_free_id(self@, id);
                }
                return id;
            }
            proof {
                lemma_taken_ids(self@, (id + 1) as u128);
            }
            id = id + 1;
        }
    }

    /// Opens a session. Its identifier is `preferred` unless a live session
    /// has that one, else the least free identifier.
    pub fn register_session(&mut self, preferred: SessionId, kind: SessionKind, store_card: CardNumber)
        -> (id: SessionId)
        ensures
            id.0 == id_for(old(self)@, preferred.0),
            !old(self)@.contains_key(id.0),
            final(self)@ == old(self)@.insert(
                id.0,
                SessionView { kind: kind@, store_card, claimed: false },
            ),
    {
        let number = if self.sessions.contains_key(&preferred.0) {
            self.next_free_id()
        } else {
            preferred.0
        };
        let record = SessionRecord { session_type: kind, store_card, claimed: false };
        let ghost shown = record@;
        self.sessions.insert(number, record);
        assert(self@ =~= old(self)@.insert(number, shown));
        SessionId(number)
    }

    /// Opens a session under an identifier drawn at random, which no live
    /// session has.
    pub fn create_session(&mut self, kind: SessionKind, store_card: CardNumber) -> (id: SessionId)
        ensures
            !old(self)@.contains_key(id.0),
            final(self)@ == old(self)@.insert(
                id.0,
                SessionView { kind: kind@, store_card, claimed: false },
            ),
    {
        self.register_session(SessionId(random_bits()), kind, store_card)
    }

    /// Looks at a session that can still be claimed, without claiming it.
    pub fn find_session(&self, id: SessionId) -> (found: Result<InteractionSession, SessionError>)
        ensures
            found is Ok <==> claimable(self@, id.0),
            found matches Ok(session) ==> session@ == descriptor(self@, id.0),
            found is Err ==> found == Err::<InteractionSession, SessionError>(
                SessionError::SessionNotFound,
            ),
    {
        match self.sessions.get(&id.0) {
            None => Err(SessionError::SessionNotFound),
            Some(record) => {
                if record.claimed {
                    Err(SessionError::SessionNotFound)
                } else {
                    Ok(
                        InteractionSession {
                            id,
                            session_type: record.session_type.clone(),
                            store_card: record.store_card,
                        },
                    )
                }
            },
        }
    }

    /// Claims a session. Of all claims of one session at most one succeeds.
    pub fn claim_session(&mut self, id: SessionId) -> (claimed: Result<
        InteractionSession,
        SessionError,
    >)
        ensures
            claimed is Ok <==> claimable(old(self)@, id.0),
            claimed is Ok ==> final(self)@ == after_claim(old(self)@, id.0),
            claimed is Ok ==> !claimable(final(self)@, id.0),
            claimed matches Ok(session) ==> session@ == descriptor(old(self)@, id.0),
            claimed is Err ==> final(self)@ == old(self)@ && claimed == Err::<
                InteractionSession,
                SessionError,
            >(SessionError::SessionNotFound),
    {
        let session = match self.find_session(id) {
            Err(e) => {
                return Err(e);
            },
            Ok(session) => session,
        };
        let record = SessionRecord {
            session_type: session.session_type.clone(),
            store_card: session.store_card,
            claimed: true,
        };
        let ghost shown = record@;
        self.sessions.insert(id.0, record);
        assert(self@ =~= after_claim(old(self)@, id.0));
        Ok(session)
    }

    /// Resolves a session: it is removed, claimed or not, and the outcome is
    /// handed back for delivery to whoever awaits it. Where no live session
    /// has the identifier nothing changes and nothing is to be delivered.
    pub fn resolve_and_remove(&mut self, id: SessionId, outcome: OperationStatus) -> (delivery:
        Option<Delivery>)
        ensures
            final(self)@ == after_resolve(old(self)@, id.0),
            !final(self)@.contains_key(id.0),
            delivery == if old(self)@.contains_key(id.0) {
                Some(Delivery { session: id, outcome })
            } else {
                None
            },
            !old(self)@.contains_key(id.0) ==> final(self)@ == old(self)@,
    {
        let removed = self.sessions.remove(&id.0);
        assert(self@ =~= after_resolve(old(self)@, id.0));
        match removed {
            Some(_) => Some(Delivery { session: id, outcome }),
            None => {
                assert(self@ =~= old(self)@);
                None
            },
        }
    }
}

} // verus!
