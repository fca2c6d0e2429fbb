//! The per-connection session and its router.
//!
//! A session owns one connection's identity and current room. Every
//! inbound frame goes through [`Session::handle_frame`], which validates
//! the signal, executes the requested action against the registries, and
//! returns the reply for the issuing connection together with the
//! deliveries owed to other clients. Connection end, however it happens,
//! goes through [`Session::teardown`] exactly once.
//!
//! Two points the protocol leaves open are resolved here explicitly: a
//! `join` issued while already in a room first leaves the old room
//! (silently, as an explicit leave is silent to the room), so the two
//! registries can never disagree; and routing decisions use the
//! connection's own identity, never the caller-supplied `sender` field.

use vstd::prelude::*;
use crate::clients::ClientRegistry;
use crate::ids::fresh_client_id;
use crate::message::{Delivery, OutboundMessage, SignalMessage};
use crate::message::action_kind;
use crate::rooms::{RoomRegistry, distinct_ids, id_set, lemma_id_set_contains};
use crate::rooms::{members_or_empty, spec_join, spec_leave};
use crate::text::str_eq;

verus! {

/// The abstract state of one session: its identity and, when present,
/// the room it currently occupies.
pub struct SessionState {
    pub id: Seq<char>,
    pub room: Option<Seq<char>>,
}

/// Whether client `c` occupies room `r` in room map `m`.
pub open spec fn in_room(m: Map<Seq<char>, Set<Seq<char>>>, r: Seq<char>, c: Seq<char>) -> bool {
    m.contains_key(r) && m[r].contains(c)
}

/// A session and the room registry agree exactly: the session occupies
/// its recorded room and no other, or no room at all.
pub open spec fn consistent_with(s: SessionState, m: Map<Seq<char>, Set<Seq<char>>>) -> bool {
    match s.room {
        Some(r) => in_room(m, r, s.id) && forall|r2: Seq<char>|
            r2 != r ==> !(#[trigger] in_room(m, r2, s.id)),
        None => forall|r2: Seq<char>| !(#[trigger] in_room(m, r2, s.id)),
    }
}

/// The room map after the session has left its current room, if any.
pub open spec fn mid_rooms(s: SessionState, m: Map<Seq<char>, Set<Seq<char>>>) -> Map<
    Seq<char>,
    Set<Seq<char>>,
> {
    match s.room {
        Some(p) => spec_leave(m, p, s.id),
        None => m,
    }
}

/// The deliveries reach exactly the reachable members of `targets` other
/// than `exclude`, each once.
pub open spec fn recipients_exactly<H>(
    ds: Seq<Delivery>,
    targets: Set<Seq<char>>,
    exclude: Seq<char>,
    clients: Map<Seq<char>, H>,
) -> bool {
    &&& forall|k: int|
        0 <= k < ds.len() ==> (#[trigger] ds[k]).recipient@ != exclude && targets.contains(
            ds[k].recipient@,
        ) && clients.contains_key(ds[k].recipient@)
    &&& forall|c: Seq<char>|
        #[trigger] targets.contains(c) && c != exclude && clients.contains_key(c) ==> exists|k: int|
            0 <= k < ds.len() && (#[trigger] ds[k]).recipient@ == c
    &&& forall|k1: int, k2: int|
        #![trigger ds[k1], ds[k2]]
        0 <= k1 < k2 < ds.len() ==> ds[k1].recipient@ != ds[k2].recipient@
}

/// One copy of `message` for every member of `members` that is not
/// `exclude` and is reachable through `clients`.
fn fan_out<H>(
    members: &Vec<String>,
    exclude: &String,
    clients: &ClientRegistry<H>,
    message: &OutboundMessage,
) -> (out: Vec<Delivery>)
    requires
        distinct_ids(members@),
    ensures
        recipients_exactly(out@, id_set(members@), exclude@, clients@),
        forall|k: int| 0 <= k < out@.len() ==> (#[trigger] out@[k]).message == *message,
{
    let mut out: Vec<Delivery> = Vec::new();
    let mut j: usize = 0;
    while j < members.len()
        invariant
            j <= members@.len(),
            distinct_ids(members@),
            forall|k: int|
                0 <= k < out@.len() ==> (#[trigger] out@[k]).message == *message
                    && out@[k].recipient@ != exclude@ && clients@.contains_key(out@[k].recipient@),
            forall|k: int|
                0 <= k < out@.len() ==> exists|i: int|
                    0 <= i < j && members@[i]@ == (#[trigger] out@[k]).recipient@,
            forall|i: int|
                0 <= i < j ==> ((#[trigger] members@[i])@ != exclude@ && clients@.contains_key(
                    members@[i]@,
                ) ==> exists|k: int| 0 <= k < out@.len() && (#[trigger] out@[k]).recipient@
                    == members@[i]@),
            forall|k1: int, k2: int|
                #![trigger out@[k1], out@[k2]]
                0 <= k1 < k2 < out@.len() ==> out@[k1].recipient@ != out@[k2].recipient@,
        decreases members@.len() - j,
    {
        let m = &members[j];
        let ghost out0 = out@;
        if !str_eq(m.as_str(), exclude.as_str()) && clients.is_registered(m.as_str()) {
            out.push(Delivery { recipient: m.clone(), message: message.duplicate() });
            proof {
                assert(out@[out@.len() - 1].recipient@ == members@[j as int]@);
                assert forall|k1: int, k2: int|
                    #![trigger out@[k1], out@[k2]]
                    0 <= k1 < k2 < out@.len() implies out@[k1].recipient@ != out@[k2].recipient@ by {
                    assert(out@[k1] == out0.push(out@[out@.len() - 1])[k1]);
                    if k2 == out@.len() - 1 {
                        let i = choose|i: int| 0 <= i < j && members@[i]@ == out@[k1].recipient@;
                        assert(members@[i]@ != members@[j as int]@);
                    } else {
                        assert(out@[k2] == out0[k2]);
                    }
                }
                assert forall|k: int| 0 <= k < out@.len() implies exists|i: int|
                    0 <= i < j + 1 && members@[i]@ == (#[trigger] out@[k]).recipient@ by {
                    if k == out@.len() - 1 {
                        assert(members@[j as int]@ == out@[k].recipient@);
                    } else {
                        assert(out@[k] == out0[k]);
                        let i = choose|i: int| 0 <= i < j && members@[i]@ == out0[k].recipient@;
                        assert(members@[i]@ == out@[k].recipient@);
                    }
                }
                assert forall|i: int|
                    0 <= i < j + 1 && (#[trigger] members@[i])@ != exclude@
                        && clients@.contains_key(members@[i]@) implies exists|k: int|
                    0 <= k < out@.len() && (#[trigger] out@[k]).recipient@ == members@[i]@ by {
                    if i == j {
                        assert(out@[out@.len() - 1].recipient@ == members@[i]@);
                    } else {
                        let k = choose|k: int|
                            0 <= k < out0.len() && (#[trigger] out0[k]).recipient@ == members@[i]@;
                        assert(out@[k] == out0[k]);
                        assert(out@[k].recipient@ == members@[i]@);
                    }
                }
            }
        } else {
            proof {
                assert(members@[j as int]@ == exclude@ || !clients@.contains_key(
                    members@[j as int]@,
                ));
            }
        }
        j = j + 1;
    }
    proof {
        lemma_id_set_contains(members@);
        assert forall|k: int| 0 <= k < out@.len() implies id_set(members@).contains(
            (#[trigger] out@[k]).recipient@,
        ) by {
            let i = choose|i: int| 0 <= i < j && members@[i]@ == out@[k].recipient@;
            assert(members@[i]@ == out@[k].recipient@);
        }
        assert forall|c: Seq<char>|
            #[trigger] id_set(members@).contains(c) && c != exclude@ && clients@.contains_key(c)
            implies exists|k: int| 0 <= k < out@.len() && (#[trigger] out@[k]).recipient@ == c by {
            let i = choose|i: int| 0 <= i < members@.len() && members@[i]@ == c;
            assert(members@[i]@ != exclude@ && clients@.contains_key(members@[i]@));
        }
    }
    out
}

pub proof fn lemma_spec_join_frame(m: Map<Seq<char>, Set<Seq<char>>>, r: Seq<char>, me: Seq<char>)
    ensures
        forall|r2: Seq<char>, c: Seq<char>|
            #![trigger in_room(spec_join(m, r, me), r2, c)]
            c != me ==> in_room(spec_join(m, r, me), r2, c) == in_room(m, r2, c),
{
    assert forall|r2: Seq<char>, c: Seq<char>| c != me implies in_room(spec_join(m, r, me), r2, c)
        == in_room(m, r2, c) by {
        if r2 == r {
            if m.contains_key(r) {
                assert(spec_join(m, r, me)[r] == m[r].insert(me));
            } else {
                assert(spec_join(m, r, me)[r] == Set::<Seq<char>>::empty().insert(me));
            }
        }
    }
}

pub proof fn lemma_spec_leave_frame(m: Map<Seq<char>, Set<Seq<char>>>, r: Seq<char>, me: Seq<char>)
    ensures
        forall|r2: Seq<char>, c: Seq<char>|
            #![trigger in_room(spec_leave(m, r, me), r2, c)]
            c != me ==> in_room(spec_leave(m, r, me), r2, c) == in_room(m, r2, c),
{
    assert forall|r2: Seq<char>, c: Seq<char>| c != me implies in_room(spec_leave(m, r, me), r2, c)
        == in_room(m, r2, c) by {
        if m.contains_key(r) && m[r].contains(me) {
            if m[r].remove(me) == Set::<Seq<char>>::empty() {
                if r2 == r && m[r].contains(c) {
                    assert(m[r].remove(me).contains(c));
                }
            } else {
                if r2 == r {
                    assert(spec_leave(m, r, me)[r] == m[r].remove(me));
                }
            }
        }
    }
}

/// After leaving its room, the session occupies no room at all.
pub proof fn lemma_mid_rooms_clears(s: SessionState, m: Map<Seq<char>, Set<Seq<char>>>)
    requires
        consistent_with(s, m),
    ensures
        forall|r: Seq<char>| !(#[trigger] in_room(mid_rooms(s, m), r, s.id)),
{
    match s.room {
        Some(p) => {
            assert forall|r: Seq<char>| !(#[trigger] in_room(mid_rooms(s, m), r, s.id)) by {
                if r == p {
                    if m[p].remove(s.id) == Set::<Seq<char>>::empty() {
                    } else {
                        assert(spec_leave(m, p, s.id)[p] == m[p].remove(s.id));
                    }
                } else {
                    assert(!in_room(m, r, s.id));
                    if m.contains_key(p) && m[p].contains(s.id) && m[p].remove(s.id) != Set::<
                        Seq<char>,
                    >::empty() {
                        assert(spec_leave(m, p, s.id).contains_key(r) == m.contains_key(r));
                    }
                }
            }
        },
        None => {
            assert forall|r: Seq<char>| !(#[trigger] in_room(mid_rooms(s, m), r, s.id)) by {
                assert(!in_room(m, r, s.id));
            }
        },
    }
}

/// Joining a room from the roomless state restores exact agreement.
pub proof fn lemma_join_makes_consistent(
    m1: Map<Seq<char>, Set<Seq<char>>>,
    r: Seq<char>,
    me: Seq<char>,
)
    requires
        forall|r2: Seq<char>| !(#[trigger] in_room(m1, r2, me)),
    ensures
        consistent_with(SessionState { id: me, room: Some(r) }, spec_join(m1, r, me)),
{
    let m2 = spec_join(m1, r, me);
    assert(in_room(m2, r, me));
    assert forall|r2: Seq<char>| r2 != r implies !(#[trigger] in_room(m2, r2, me)) by {
        assert(!in_room(m1, r2, me));
    }
}

/// The reply for the issuing connection and the deliveries owed to
/// other clients, as decided by the router for one inbound frame.
pub struct RouteOutcome {
    pub reply: Option<OutboundMessage>,
    pub deliveries: Vec<Delivery>,
}

/// One live connection: its minted identity and its current room.
pub struct Session {
    id: String,
    room_id: Option<String>,
}

impl View for Session {
    type V = SessionState;

    closed spec fn view(&self) -> SessionState {
        SessionState {
            id: self.id@,
            room: match self.room_id {
                Some(r) => Some(r@),
                None => None,
            },
        }
    }
}

impl Session {
    /// A session with a caller-chosen identity, in no room.
    pub fn with_id(id: String) -> (s: Session)
        ensures
            s@.id == id@,
            s@.room is None,
    {
        Session { id, room_id: None }
    }

    /// Connection acceptance: mints a fresh identity, registers the
    /// delivery handle, and starts in no room.
    pub fn accept<H>(clients: &mut ClientRegistry<H>, handle: H) -> (s: Session)
        ensures
            s@.room is None,
            s@.id.len() == 36,
            final(clients)@ == old(clients)@.insert(s@.id, handle),
    {
        let id = fresh_client_id();
        clients.register(id.clone(), handle);
        Session { id, room_id: None }
    }

    pub fn client_id(&self) -> (r: &String)
        ensures
            r@ == self@.id,
    {
        &self.id
    }

    pub fn current_room(&self) -> (r: &Option<String>)
        ensures
            match *r {
                Some(x) => self@.room == Some(x@),
                None => self@.room is None,
            },
    {
        &self.room_id
    }

    /// Routes one inbound frame: a parse failure is answered with an
    /// error reply and changes nothing; `join` and `leave` move the
    /// session and the room registry in step; relay actions deliver the
    /// signal verbatim to one target or to the rest of the room; an
    /// unrecognized action is echoed back as an error.
    pub fn handle_frame<H>(
        &mut self,
        parsed: Result<SignalMessage, String>,
        clients: &ClientRegistry<H>,
        rooms: &mut RoomRegistry,
    ) -> (out: RouteOutcome)
        requires
            old(rooms).wf(),
            consistent_with(old(self)@, old(rooms)@),
        ensures
            final(rooms).wf(),
            consistent_with(final(self)@, final(rooms)@),
            final(self)@.id == old(self)@.id,
            // other clients' room membership is untouched
            forall|r: Seq<char>, c: Seq<char>|
                #![trigger in_room(final(rooms)@, r, c)]
                #![trigger in_room(old(rooms)@, r, c)]
                c != old(self)@.id ==> in_room(final(rooms)@, r, c) == in_room(old(rooms)@, r, c),
            // self-exclusion: without a target, nothing comes back to the sender
            (parsed matches Ok(msg) ==> (msg.target is None ==> forall|k: int|
                0 <= k < out.deliveries@.len() ==> (#[trigger] out.deliveries@[k]).recipient@
                    != old(self)@.id)),
            // malformed payload: error reply, no deliveries, no state change
            (parsed matches Err(d) ==> final(self)@ == old(self)@ && final(rooms)@ == old(rooms)@
                && out.deliveries@.len() == 0 && (out.reply matches Some(
                OutboundMessage::MalformedInput { details },
            ) && details == d)),
            // join with a room: leave the old room, enter the new one,
            // confirm to the sender, announce to the room's other occupants
            (parsed matches Ok(msg) ==> (msg.room_id matches Some(room) ==> (action_kind(msg.action@)
                is Join ==> final(self)@.room == Some(room@) && final(rooms)@ == spec_join(
                mid_rooms(old(self)@, old(rooms)@),
                room@,
                old(self)@.id,
            ) && (out.reply matches Some(OutboundMessage::Joined { room_id, client_id })
                && room_id@ == room@ && client_id@ == old(self)@.id) && recipients_exactly(
                out.deliveries@,
                members_or_empty(mid_rooms(old(self)@, old(rooms)@), room@),
                old(self)@.id,
                clients@,
            ) && forall|k: int|
                0 <= k < out.deliveries@.len() ==> ((#[trigger] out.deliveries@[k]).message
                    matches OutboundMessage::UserJoined { room_id: rr, client_id: cc } && rr@
                    == room@ && cc@ == old(self)@.id)))),
            // join without a room: validation failure, nothing changes
            (parsed matches Ok(msg) ==> (action_kind(msg.action@) is Join && msg.room_id is None ==> final(self)@ == old(self)@ && final(rooms)@ == old(rooms)@ && out.deliveries@.len() == 0
                && out.reply == Some(OutboundMessage::MissingRoomId))),
            // leave: always confirmed to the sender alone; a no-op on the
            // registries when the session is in no room
            (parsed matches Ok(msg) ==> (action_kind(msg.action@) is Leave ==> final(self)@ == (SessionState {
                id: old(self)@.id,
                room: None,
            }) && final(rooms)@ == mid_rooms(old(self)@, old(rooms)@) && out.deliveries@.len() == 0
                && (out.reply matches Some(OutboundMessage::Left { client_id }) && client_id@
                == old(self)@.id))),
            // targeted relay: at most the target receives it, verbatim
            (parsed matches Ok(msg) ==> (msg.target matches Some(t) ==> (action_kind(msg.action@)
                is Relay ==> final(self)@ == old(self)@ && final(rooms)@ == old(rooms)@ && out.reply is None
                && out.deliveries@.len() <= 1 && (out.deliveries@.len() == 1
                <==> clients@.contains_key(t@)) && (out.deliveries@.len() == 1
                ==> out.deliveries@[0].recipient@ == t@ && out.deliveries@[0].message
                == OutboundMessage::Relay(msg))))),
            // room-wide relay: everyone reachable in the sender's room but
            // the sender, verbatim; silently nothing when in no room
            (parsed matches Ok(msg) ==> (action_kind(msg.action@) is Relay && msg.target is None
                ==> final(self)@ == old(self)@ && final(rooms)@ == old(rooms)@ && out.reply is None
                && recipients_exactly(
                out.deliveries@,
                (match old(self)@.room {
                    Some(p) => members_or_empty(old(rooms)@, p),
                    None => Set::<Seq<char>>::empty(),
                }),
                old(self)@.id,
                clients@,
            ) && forall|k: int|
                0 <= k < out.deliveries@.len() ==> (#[trigger] out.deliveries@[k]).message
                    == OutboundMessage::Relay(msg))),
            // unrecognized action: echoed error to the sender alone
            (parsed matches Ok(msg) ==> (action_kind(msg.action@) is Unknown ==> final(self)@ == old(self)@ && final(rooms)@
                == old(rooms)@ && out.deliveries@.len() == 0 && (out.reply matches Some(
                OutboundMessage::UnknownAction { action },
            ) && action@ == msg.action@))),
    {
        let ghost me = old(self)@.id;
        let msg = match parsed {
            Ok(m) => m,
            Err(details) => {
                return RouteOutcome {
                    reply: Some(OutboundMessage::MalformedInput { details }),
                    deliveries: Vec::new(),
                };
            },
        };
        if str_eq(msg.action.as_str(), "join") {
            let room = match &msg.room_id {
                Some(r) => r.clone(),
                None => {
                    return RouteOutcome {
                        reply: Some(OutboundMessage::MissingRoomId),
                        deliveries: Vec::new(),
                    };
                },
            };
            // implicit leave of the previous room, then join the new one
            let prev = match &self.room_id {
                Some(p) => Some(p.clone()),
                None => None,
            };
            if let Some(p) = &prev {
                rooms.leave(p, &self.id);
            }
            proof {
                assert(rooms@ == mid_rooms(old(self)@, old(rooms)@));
                lemma_mid_rooms_clears(old(self)@, old(rooms)@);
            }
            let prior = rooms.members(&room);
            rooms.join(&room, &self.id);
            self.room_id = Some(room.clone());
            let announce = OutboundMessage::UserJoined {
                room_id: room.clone(),
                client_id: self.id.clone(),
            };
            let deliveries = match &prior {
                Some(ms) => fan_out(ms, &self.id, clients, &announce),
                None => Vec::new(),
            };
            proof {
                let m1 = mid_rooms(old(self)@, old(rooms)@);
                lemma_join_makes_consistent(m1, room@, me);
                assert(self@ == (SessionState { id: me, room: Some(room@) }));
                match old(self)@.room {
                    Some(p) => lemma_spec_leave_frame(old(rooms)@, p, me),
                    None => (),
                }
                lemma_spec_join_frame(m1, room@, me);
            }
            let reply = OutboundMessage::Joined { room_id: room, client_id: self.id.clone() };
            RouteOutcome { reply: Some(reply), deliveries }
        } else if str_eq(msg.action.as_str(), "leave") {
            let prev = match &self.room_id {
                Some(p) => Some(p.clone()),
                None => None,
            };
            if let Some(p) = &prev {
                rooms.leave(p, &self.id);
            }
            self.room_id = None;
            proof {
                assert(rooms@ == mid_rooms(old(self)@, old(rooms)@));
                lemma_mid_rooms_clears(old(self)@, old(rooms)@);
                match old(self)@.room {
                    Some(p) => lemma_spec_leave_frame(old(rooms)@, p, me),
                    None => (),
                }
            }
            let reply = OutboundMessage::Left { client_id: self.id.clone() };
            RouteOutcome { reply: Some(reply), deliveries: Vec::new() }
        } else if str_eq(msg.action.as_str(), "offer") || str_eq(msg.action.as_str(), "answer")
            || str_eq(msg.action.as_str(), "ice-candidate") {
            match &msg.target {
                Some(t) => {
                    let mut ds: Vec<Delivery> = Vec::new();
                    if clients.is_registered(t.as_str()) {
                        let recipient = t.clone();
                        ds.push(
                            Delivery {
                                recipient,
                                message: OutboundMessage::Relay(msg.duplicate()),
                            },
                        );
                    }
                    RouteOutcome { reply: None, deliveries: ds }
                },
                None => {
                    match &self.room_id {
                        Some(p) => {
                            let ms = rooms.members(p);
                            match ms {
                                Some(mvec) => {
                                    let relayed = OutboundMessage::Relay(msg.duplicate());
                                    let ds = fan_out(&mvec, &self.id, clients, &relayed);
                                    RouteOutcome { reply: None, deliveries: ds }
                                },
                                None => {
                                    // the session's recorded room always exists
                                    proof {
                                        assert(in_room(rooms@, p@, me));
                                        assert(false);
                                    }
                                    RouteOutcome { reply: None, deliveries: Vec::new() }
                                },
                            }
                        },
                        None => RouteOutcome { reply: None, deliveries: Vec::new() },
                    }
                },
            }
        } else {
            let reply = OutboundMessage::UnknownAction { action: msg.action };
            RouteOutcome { reply: Some(reply), deliveries: Vec::new() }
        }
    }

    /// Connection end, for any reason: removes every registry trace of
    /// this session and returns the departure announcements owed to the
    /// other occupants of its room, if it was in one.
    pub fn teardown<H>(
        self,
        clients: &mut ClientRegistry<H>,
        rooms: &mut RoomRegistry,
    ) -> (out: Vec<Delivery>)
        requires
            old(rooms).wf(),
            consistent_with(self@, old(rooms)@),
        ensures
            final(rooms).wf(),
            final(rooms)@ == mid_rooms(self@, old(rooms)@),
            final(clients)@ == old(clients)@.remove(self@.id),
            forall|r: Seq<char>, c: Seq<char>|
                #![trigger in_room(final(rooms)@, r, c)]
                #![trigger in_room(old(rooms)@, r, c)]
                c != self@.id ==> in_room(final(rooms)@, r, c) == in_room(old(rooms)@, r, c),
            forall|r: Seq<char>| !(#[trigger] in_room(final(rooms)@, r, self@.id)),
            recipients_exactly(
                out@,
                (match self@.room {
                    Some(p) => members_or_empty(old(rooms)@, p),
                    None => Set::<Seq<char>>::empty(),
                }),
                self@.id,
                old(clients)@,
            ),
            (self@.room matches Some(p) ==> forall|k: int|
                0 <= k < out@.len() ==> ((#[trigger] out@[k]).message matches
                    OutboundMessage::UserLeft { room_id: rr, client_id: cc } && rr@ == p && cc@
                    == self@.id)),
    {
        let ghost me = self@.id;
        let Session { id, room_id } = self;
        let mut out: Vec<Delivery> = Vec::new();
        match room_id {
            Some(p) => {
                let ms = rooms.members(&p);
                rooms.leave(&p, &id);
                proof {
                    lemma_mid_rooms_clears(self@, old(rooms)@);
                    lemma_spec_leave_frame(old(rooms)@, p@, me);
                }
                match ms {
                    Some(mvec) => {
                        let gone = OutboundMessage::UserLeft {
                            room_id: p,
                            client_id: id.clone(),
                        };
                        out = fan_out(&mvec, &id, clients, &gone);
                    },
                    None => {
                        // the session's recorded room always exists
                        proof {
                            assert(in_room(old(rooms)@, p@, me));
                            assert(false);
                        }
                    },
                }
            },
            None => {
                proof {
                    lemma_mid_rooms_clears(self@, old(rooms)@);
                }
            },
        }
        clients.unregister(id.as_str());
        out
    }
}

} // verus!
