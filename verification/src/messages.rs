//! Conversations with contacts: messages, files, presence and contact requests.

use vstd::prelude::*;
use vstd::utf8::encode_utf8;

use crate::call::{and_then_do, asks, no_actions, SidebarTab};
use crate::effects::{maybe, Action, ActionData, Effect, FileStatus, PresenceStatus};
use crate::group::{find_contact, reachable};
use crate::groups::first_with_id;
use crate::identity::{pubkey_hex, same_key, Contact, ContactData};
use crate::network::{socket_address, socket_text};
use crate::order::{kept_in_order, picks, picks_one_more, sort_stably, stable_sort_of, Ranked};
use crate::settings::Settings;
use crate::table::{sum_of, value_or, Table};
use crate::text::{
    begins_with, concat, contains, contains_text, copy, cut, cuttable, first_bytes, hex, lowercase,
    same, starts_with, to_lowercase, trim, trimmed, views,
};

verus! {

/// How many messages of a conversation are shown at first, and how many more each time.
pub const MSG_PAGE_SIZE: usize = 100;

/// A request to become a contact.
pub struct Request {
    pub request_id: String,
    pub nickname: String,
    pub ip: String,
    pub fingerprint: String,
}

/// A request as mathematical data.
#[verifier::ext_equal]
pub struct RequestData {
    pub request_id: Seq<char>,
    pub nickname: Seq<char>,
    pub ip: Seq<char>,
    pub fingerprint: Seq<char>,
}

impl View for Request {
    type V = RequestData;

    open spec fn view(&self) -> RequestData {
        RequestData {
            request_id: self.request_id@,
            nickname: self.nickname@,
            ip: self.ip@,
            fingerprint: self.fingerprint@,
        }
    }
}

/// The contact requests: those that came in, and the form to send one.
pub struct Requests {
    pub incoming: Vec<Request>,
    pub ip_input: String,
    pub port_input: String,
    pub status: String,
}

/// The contact requests as mathematical data.
#[verifier::ext_equal]
pub struct RequestsData {
    pub incoming: Seq<RequestData>,
    pub ip_input: Seq<char>,
    pub port_input: Seq<char>,
    pub status: Seq<char>,
}

impl View for Requests {
    type V = RequestsData;

    open spec fn view(&self) -> RequestsData {
        RequestsData {
            incoming: views(self.incoming@),
            ip_input: self.ip_input@,
            port_input: self.port_input@,
            status: self.status@,
        }
    }
}

/// Whether a request is listed.
pub open spec fn request_listed(list: Seq<RequestData>, id: Seq<char>) -> bool {
    exists|i: int| 0 <= i < list.len() && (#[trigger] list[i]).request_id == id
}

/// No request is listed twice.
pub open spec fn requests_distinct(list: Seq<RequestData>) -> bool {
    forall|i: int, j: int|
        0 <= i < j < list.len() ==> (#[trigger] list[i]).request_id != (
        #[trigger] list[j]).request_id
}

/// The list with a request added, unless it is there.
pub open spec fn with_request(list: Seq<RequestData>, r: RequestData) -> Seq<RequestData> {
    if request_listed(list, r.request_id) {
        list
    } else {
        list.push(r)
    }
}

/// Being another request, as a predicate.
pub open spec fn other_request(id: Seq<char>) -> spec_fn(RequestData) -> bool {
    |r: RequestData| r.request_id != id
}

/// The list without a request.
pub open spec fn without_request(list: Seq<RequestData>, id: Seq<char>) -> Seq<RequestData> {
    list.filter(other_request(id))
}

/// The address of the first request with an identifier, or nothing.
pub open spec fn request_ip(list: Seq<RequestData>, id: Seq<char>) -> Seq<char>
    decreases list.len(),
{
    if list.len() == 0 {
        seq![]
    } else if list[0].request_id == id {
        list[0].ip
    } else {
        request_ip(list.drop_first(), id)
    }
}

/// The address for a request is that of the first with its identifier.
pub proof fn request_ip_is(list: Seq<RequestData>, id: Seq<char>, i: int)
    requires
        0 <= i <= list.len(),
        forall|k: int| 0 <= k < i ==> (#[trigger] list[k]).request_id != id,
        i < list.len() ==> list[i].request_id == id,
    ensures
        request_ip(list, id) == (if i < list.len() {
            list[i].ip
        } else {
            seq![]
        }),
    decreases list.len(),
{
    if i > 0 {
        let t = list.drop_first();
        assert(list[0].request_id != id);
        assert forall|k: int| 0 <= k < i - 1 implies (#[trigger] t[k]).request_id != id by {
            assert(t[k] == list[k + 1]);
        }
        request_ip_is(t, id, i - 1);
    }
}

/// A request is listed once however often it comes in, and is gone once it was answered.
pub proof fn requests_are_listed_once(list: Seq<RequestData>, r: RequestData)
    requires
        requests_distinct(list),
    ensures
        requests_distinct(with_request(list, r)),
        request_listed(with_request(list, r), r.request_id),
        with_request(with_request(list, r), r) == with_request(list, r),
        requests_distinct(without_request(list, r.request_id)),
        !request_listed(without_request(list, r.request_id), r.request_id),
    decreases list.len(),
{
    if !request_listed(list, r.request_id) {
        let more = list.push(r);
        assert(more[list.len() as int].request_id == r.request_id);
        assert forall|i: int, j: int| 0 <= i < j < more.len() implies (#[trigger] more[i]).request_id
            != (#[trigger] more[j]).request_id by {
            if j < list.len() {
                assert(list[i].request_id != list[j].request_id);
            } else {
                assert(list[i].request_id != r.request_id);
            }
        }
    }
    reveal(Seq::filter);
    if list.len() > 0 {
        let head = list.drop_last();
        assert forall|i: int, j: int| 0 <= i < j < head.len() implies (#[trigger] head[i]).request_id
            != (#[trigger] head[j]).request_id by {
            assert(list[i] == head[i] && list[j] == head[j]);
        }
        requests_are_listed_once(head, r);
        let rest = without_request(head, r.request_id);
        let last = list.last();
        if last.request_id != r.request_id {
            let kept = rest.push(last);
            assert(without_request(list, r.request_id) == kept);
            assert forall|i: int| 0 <= i < kept.len() implies (#[trigger] kept[i]).request_id
                != r.request_id by {
                if i < rest.len() {
                    assert(rest[i].request_id != r.request_id);
                }
            }
            assert forall|i: int, j: int| 0 <= i < j < kept.len() implies (
            #[trigger] kept[i]).request_id != (#[trigger] kept[j]).request_id by {
                if j < rest.len() {
                    assert(rest[i].request_id != rest[j].request_id);
                } else {
                    let k = kept_came_from(head, r.request_id, i);
                    assert(list[k].request_id != list[list.len() - 1].request_id);
                }
            }
        }
    }
}

proof fn kept_came_from(list: Seq<RequestData>, id: Seq<char>, i: int) -> (k: int)
    requires
        0 <= i < without_request(list, id).len(),
    ensures
        0 <= k < list.len(),
        list[k] == without_request(list, id)[i],
    decreases list.len(),
{
    reveal(Seq::filter);
    let head = list.drop_last();
    if i < without_request(head, id).len() {
        let k = kept_came_from(head, id, i);
        assert(list[k] == head[k]);
        k
    } else {
        list.len() - 1
    }
}

/// What to do with a contact request.
#[derive(Clone, Copy, PartialEq, Eq, Structural)]
pub enum RequestAnswer {
    Accept,
    Reject,
    Block,
}

/// What pressing the send button of the form comes to.
pub enum RequestForm<S> {
    /// Something is missing; the status says what.
    Incomplete,
    /// The two texts to try as an address, the bracketed one first.
    Try { bracketed: S, plain: S },
}

impl View for RequestForm<String> {
    type V = RequestForm<Seq<char>>;

    open spec fn view(&self) -> RequestForm<Seq<char>> {
        match self {
            RequestForm::Incomplete => RequestForm::Incomplete,
            RequestForm::Try { bracketed, plain } => RequestForm::Try {
                bracketed: bracketed@,
                plain: plain@,
            },
        }
    }
}

impl Requests {
    /// A request came in.
    pub fn on_request(&mut self, request: Request)
        ensures
            final(self)@ == (RequestsData {
                incoming: with_request(old(self)@.incoming, request@),
                ..old(self)@
            }),
    {
        let mut i: usize = 0;
        while i < self.incoming.len()
            invariant
                i <= self.incoming@.len(),
                self@ == old(self)@,
                forall|k: int|
                    0 <= k < i ==> (#[trigger] views(self.incoming@)[k]).request_id
                        != request@.request_id,
            decreases self.incoming@.len() - i,
        {
            if same(self.incoming[i].request_id.as_str(), request.request_id.as_str()) {
                assert(views(self.incoming@)[i as int].request_id == request@.request_id);
                return ;
            }
            i = i + 1;
        }
        let ghost before = self.incoming@;
        let ghost rd = request@;
        self.incoming.push(request);
        assert(views(self.incoming@) =~= views(before).push(rd));
    }

    /// A request that was sent was accepted.
    pub fn on_accepted(&mut self)
        ensures
            final(self)@ == (RequestsData {
                status: "Request accepted! Contact saved."@,
                ..old(self)@
            }),
    {
        self.status = copy("Request accepted! Contact saved.");
    }

    /// A request that was sent failed.
    pub fn on_failed(&mut self, peer: &str, reason: &str)
        ensures
            final(self)@ == (RequestsData {
                status: "Failed ("@ + peer@ + "): "@ + reason@,
                ..old(self)@
            }),
    {
        let a = concat("Failed (", peer);
        let b = concat(a.as_str(), "): ");
        self.status = concat(b.as_str(), reason);
    }

    /// Answers a request, and takes it off the list.
    pub fn answer(&mut self, id: &str, answer: RequestAnswer) -> (r: Vec<Action>)
        ensures
            final(self)@ == (RequestsData {
                incoming: without_request(old(self)@.incoming, id@),
                ..old(self)@
            }),
            asks(
                r@,
                seq![
                    match answer {
                        RequestAnswer::Accept => Effect::AcceptRequest { request_id: id@ },
                        RequestAnswer::Reject => Effect::RejectRequest { request_id: id@ },
                        RequestAnswer::Block => Effect::BlockRequest {
                            request_id: id@,
                            ip: request_ip(old(self)@.incoming, id@),
                        },
                    },
                ],
            ),
    {
        let ghost start = views(self.incoming@);
        let mut at: usize = 0;
        while at < self.incoming.len() && !same(self.incoming[at].request_id.as_str(), id)
            invariant
                at <= self.incoming@.len(),
                start == views(self.incoming@),
                forall|k: int| 0 <= k < at ==> (#[trigger] start[k]).request_id != id@,
            decreases self.incoming@.len() - at,
        {
            at = at + 1;
        }
        proof {
            request_ip_is(start, id@, at as int);
        }
        let ip = if at < self.incoming.len() {
            copy(self.incoming[at].ip.as_str())
        } else {
            String::new()
        };
        let mut kept: Vec<Request> = Vec::new();
        let mut i: usize = 0;
        proof {
            reveal(Seq::filter);
            assert(start.take(0) =~= Seq::<RequestData>::empty());
            assert(views(kept@) =~= Seq::<RequestData>::empty());
        }
        while i < self.incoming.len()
            invariant
                i <= self.incoming@.len(),
                start == views(self.incoming@),
                views(kept@) == without_request(start.take(i as int), id@),
            decreases self.incoming@.len() - i,
        {
            let ghost before = kept@;
            let r = &self.incoming[i];
            if !same(r.request_id.as_str(), id) {
                kept.push(
                    Request {
                        request_id: copy(r.request_id.as_str()),
                        nickname: copy(r.nickname.as_str()),
                        ip: copy(r.ip.as_str()),
                        fingerprint: copy(r.fingerprint.as_str()),
                    },
                );
            }
            proof {
                reveal(Seq::filter);
                let now = start.take(i + 1);
                assert(now.drop_last() =~= start.take(i as int));
                assert(now.last() == self.incoming@[i as int]@);
                if self.incoming@[i as int].request_id@ != id@ {
                    assert(views(kept@) =~= views(before).push(self.incoming@[i as int]@));
                }
            }
            i = i + 1;
        }
        assert(start.take(i as int) =~= start);
        self.incoming = kept;
        let mut todo = no_actions();
        let request_id = copy(id);
        let action = match answer {
            RequestAnswer::Accept => Effect::AcceptRequest { request_id },
            RequestAnswer::Reject => Effect::RejectRequest { request_id },
            RequestAnswer::Block => Effect::BlockRequest { request_id, ip },
        };
        and_then_do(&mut todo, action);
        todo
    }

    /// Checks the form to send a request: an address and a port are needed.
    pub fn send_contact_request(&mut self) -> (r: RequestForm<String>)
        ensures
            ({
                let ip = trimmed(old(self)@.ip_input);
                let port = trimmed(old(self)@.port_input);
                if ip.len() == 0 {
                    &&& r is Incomplete
                    &&& final(self)@ == (RequestsData {
                        status: "Error: IP address is required"@,
                        ..old(self)@
                    })
                } else if port.len() == 0 {
                    &&& r is Incomplete
                    &&& final(self)@ == (RequestsData {
                        status: "Error: Port is required"@,
                        ..old(self)@
                    })
                } else {
                    &&& r@ == (RequestForm::Try {
                        bracketed: socket_text(ip, port),
                        plain: ip + ":"@ + port,
                    })
                    &&& final(self)@ == old(self)@
                }
            }),
    {
        let ip = trim(self.ip_input.as_str());
        let port = trim(self.port_input.as_str());
        if ip.as_str().is_empty() {
            self.status = copy("Error: IP address is required");
            return RequestForm::Incomplete;
        }
        if port.as_str().is_empty() {
            self.status = copy("Error: Port is required");
            return RequestForm::Incomplete;
        }
        let bracketed = socket_address(ip.as_str(), port.as_str());
        let head = concat(ip.as_str(), ":");
        let plain = concat(head.as_str(), port.as_str());
        RequestForm::Try { bracketed, plain }
    }

    /// What the form shows after its address was tried: `sent_to` is the address that the
    /// request went to, or nothing if neither text was an address.
    pub fn request_tried(&mut self, sent_to: Option<&str>)
        ensures
            final(self)@ == (match sent_to {
                Some(address) => RequestsData {
                    status: "Request sent to "@ + address@,
                    ip_input: seq![],
                    port_input: seq![],
                    ..old(self)@
                },
                None => RequestsData { status: "Error: Invalid IP or port"@, ..old(self)@ },
            }),
    {
        match sent_to {
            Some(address) => {
                self.status = concat("Request sent to ", address);
                self.ip_input = String::new();
                self.port_input = String::new();
            },
            None => {
                self.status = copy("Error: Invalid IP or port");
            },
        }
    }

    /// Whether the status tells of a failure.
    pub fn status_is_failure(&self) -> (r: bool)
        ensures
            r == (begins_with(self@.status, "Error"@) || begins_with(self@.status, "Failed"@)),
    {
        starts_with(self.status.as_str(), "Error") || starts_with(self.status.as_str(), "Failed")
    }
}

/// How far a file transfer has come.
pub struct Transfer {
    pub contact_id: String,
    pub transfer_id: u32,
    pub done: u64,
    pub total: u64,
}

/// How far a file transfer has come, as mathematical data.
#[verifier::ext_equal]
pub struct TransferData {
    pub contact_id: Seq<char>,
    pub transfer_id: u32,
    pub done: u64,
    pub total: u64,
}

impl View for Transfer {
    type V = TransferData;

    open spec fn view(&self) -> TransferData {
        TransferData {
            contact_id: self.contact_id@,
            transfer_id: self.transfer_id,
            done: self.done,
            total: self.total,
        }
    }
}

/// Whether an entry is about a transfer.
pub open spec fn about(t: TransferData, contact_id: Seq<char>, transfer_id: u32) -> bool {
    t.contact_id == contact_id && t.transfer_id == transfer_id
}

/// Whether a transfer is followed.
pub open spec fn followed(list: Seq<TransferData>, contact_id: Seq<char>, transfer_id: u32) -> bool {
    exists|i: int| 0 <= i < list.len() && about(#[trigger] list[i], contact_id, transfer_id)
}

/// The list after progress of a transfer: its entry is brought up to date, or added.
pub open spec fn with_progress(list: Seq<TransferData>, t: TransferData) -> Seq<TransferData> {
    if followed(list, t.contact_id, t.transfer_id) {
        Seq::new(
            list.len(),
            |i: int|
                if about(list[i], t.contact_id, t.transfer_id) {
                    t
                } else {
                    list[i]
                },
        )
    } else {
        list.push(t)
    }
}

/// Being about another transfer, as a predicate.
pub open spec fn about_other(contact_id: Seq<char>, transfer_id: u32) -> spec_fn(
    TransferData,
) -> bool {
    |t: TransferData| !about(t, contact_id, transfer_id)
}

/// The list without a transfer.
pub open spec fn without_transfer(
    list: Seq<TransferData>,
    contact_id: Seq<char>,
    transfer_id: u32,
) -> Seq<TransferData> {
    list.filter(about_other(contact_id, transfer_id))
}

fn note_progress(list: &mut Vec<Transfer>, t: Transfer) -> (r: bool)
    ensures
        views(final(list)@) == with_progress(views(old(list)@), t@),
        r == !followed(views(old(list)@), t@.contact_id, t@.transfer_id),
{
    let ghost start = views(list@);
    let n: usize = list.len();
    let mut found = false;
    let mut i: usize = 0;
    while i < n
        invariant
            i <= n,
            list@.len() == n,
            start.len() == n,
            found == exists|k: int|
                0 <= k < i && about(#[trigger] start[k], t@.contact_id, t@.transfer_id),
            forall|k: int|
                0 <= k < n ==> (#[trigger] list@[k])@ == (if k < i && about(
                    start[k],
                    t@.contact_id,
                    t@.transfer_id,
                ) {
                    t@
                } else {
                    start[k]
                }),
        decreases n - i,
    {
        assert(list@[i as int]@ == start[i as int]);
        if list[i].transfer_id == t.transfer_id && same(
            list[i].contact_id.as_str(),
            t.contact_id.as_str(),
        ) {
            assert(about(start[i as int], t@.contact_id, t@.transfer_id));
            let c = Transfer {
                contact_id: copy(t.contact_id.as_str()),
                transfer_id: t.transfer_id,
                done: t.done,
                total: t.total,
            };
            list.set(i, c);
            found = true;
        }
        i = i + 1;
    }
    if found {
        assert(views(list@) =~= with_progress(start, t@));
        false
    } else {
        let ghost td = t@;
        assert(views(list@) =~= start);
        let ghost before = list@;
        list.push(t);
        assert(views(list@) =~= views(before).push(td));
        true
    }
}

fn forget_transfer(list: &mut Vec<Transfer>, contact_id: &str, transfer_id: u32)
    ensures
        views(final(list)@) == without_transfer(views(old(list)@), contact_id@, transfer_id),
{
    let ghost start = views(list@);
    let mut kept: Vec<Transfer> = Vec::new();
    let mut i: usize = 0;
    proof {
        reveal(Seq::filter);
        assert(start.take(0) =~= Seq::<TransferData>::empty());
        assert(views(kept@) =~= Seq::<TransferData>::empty());
    }
    while i < list.len()
        invariant
            i <= list@.len(),
            views(list@) == start,
            views(kept@) == without_transfer(start.take(i as int), contact_id@, transfer_id),
        decreases list@.len() - i,
    {
        let ghost before = kept@;
        let t = &list[i];
        if !(t.transfer_id == transfer_id && same(t.contact_id.as_str(), contact_id)) {
            kept.push(
                Transfer {
                    contact_id: copy(t.contact_id.as_str()),
                    transfer_id: t.transfer_id,
                    done: t.done,
                    total: t.total,
                },
            );
        }
        proof {
            reveal(Seq::filter);
            let now = start.take(i + 1);
            assert(now.drop_last() =~= start.take(i as int));
            assert(now.last() == list@[i as int]@);
            if !about(list@[i as int]@, contact_id@, transfer_id) {
                assert(views(kept@) =~= views(before).push(list@[i as int]@));
            }
        }
        i = i + 1;
    }
    assert(start.take(i as int) =~= start);
    *list = kept;
}

/// The conversations of the user.
pub struct Messages {
    pub active_chat: Option<String>,
    pub input: String,
    pub show_add_friend: bool,
    pub pending_open: Option<String>,
    pub unread: Table<u32>,
    pub online: Table<bool>,
    pub presence: Table<PresenceStatus>,
    pub visible: Table<usize>,
    pub progress: Vec<Transfer>,
    pub confirm_delete_chat: Option<String>,
    pub confirm_delete_contact: Option<usize>,
    pub requests: Requests,
}

/// The conversations as mathematical data.
#[verifier::ext_equal]
pub struct MessagesData {
    pub active_chat: Option<Seq<char>>,
    pub input: Seq<char>,
    pub show_add_friend: bool,
    pub pending_open: Option<Seq<char>>,
    pub unread: Map<Seq<char>, u32>,
    pub online: Map<Seq<char>, bool>,
    pub presence: Map<Seq<char>, PresenceStatus>,
    pub visible: Map<Seq<char>, usize>,
    pub progress: Seq<TransferData>,
    pub confirm_delete_chat: Option<Seq<char>>,
    pub confirm_delete_contact: Option<usize>,
    pub requests: RequestsData,
}

impl View for Messages {
    type V = MessagesData;

    open spec fn view(&self) -> MessagesData {
        MessagesData {
            active_chat: maybe(self.active_chat),
            input: self.input@,
            show_add_friend: self.show_add_friend,
            pending_open: maybe(self.pending_open),
            unread: self.unread@,
            online: self.online@,
            presence: self.presence@,
            visible: self.visible@,
            progress: views(self.progress@),
            confirm_delete_chat: maybe(self.confirm_delete_chat),
            confirm_delete_contact: self.confirm_delete_contact,
            requests: self.requests@,
        }
    }
}

/// No conversations yet.
pub open spec fn no_messages() -> MessagesData {
    MessagesData {
        active_chat: None,
        input: seq![],
        show_add_friend: false,
        pending_open: None,
        unread: Map::empty(),
        online: Map::empty(),
        presence: Map::empty(),
        visible: Map::empty(),
        progress: seq![],
        confirm_delete_chat: None,
        confirm_delete_contact: None,
        requests: RequestsData {
            incoming: seq![],
            ip_input: seq![],
            port_input: seq![],
            status: seq![],
        },
    }
}

/// Whether the user is looking at the chat with a contact.
pub open spec fn viewing(m: MessagesData, tab: SidebarTab, contact_id: Seq<char>) -> bool {
    tab == SidebarTab::Messages && m.active_chat == Some(contact_id)
}

impl MessagesData {
    /// One more unread message of a contact, unless the user is looking at the chat.
    pub open spec fn counted(self, tab: SidebarTab, contact_id: Seq<char>) -> Self {
        if viewing(self, tab, contact_id) {
            self
        } else {
            MessagesData {
                unread: self.unread.insert(
                    contact_id,
                    (value_or(self.unread, contact_id, 0) + 1) as u32,
                ),
                ..self
            }
        }
    }

    /// The chat with a contact is open: nothing in it is unread, and it shows one page.
    pub open spec fn opened(self, contact_id: Seq<char>) -> Self {
        MessagesData {
            active_chat: Some(contact_id),
            unread: self.unread.remove(contact_id),
            visible: self.visible.insert(contact_id, MSG_PAGE_SIZE),
            ..self
        }
    }

    /// Whether a contact is there, or not, is known.
    pub open spec fn peer_is(self, contact_id: Seq<char>, online: bool) -> Self {
        MessagesData {
            online: self.online.insert(contact_id, online),
            presence: if online {
                self.presence
            } else {
                self.presence.insert(contact_id, PresenceStatus::Offline)
            },
            ..self
        }
    }

    /// Nothing of a contact is kept any more.
    pub open spec fn without_contact(self, contact_id: Seq<char>) -> Self {
        MessagesData {
            active_chat: if self.active_chat == Some(contact_id) {
                None
            } else {
                self.active_chat
            },
            online: self.online.remove(contact_id),
            presence: self.presence.remove(contact_id),
            unread: self.unread.remove(contact_id),
            confirm_delete_contact: None,
            ..self
        }
    }
}

/// The presence shown for a contact: what it last said, or whether it is online.
pub open spec fn shown_presence(m: MessagesData, contact_id: Seq<char>) -> PresenceStatus {
    value_or(
        m.presence,
        contact_id,
        if value_or(m.online, contact_id, false) {
            PresenceStatus::Online
        } else {
            PresenceStatus::Offline
        },
    )
}

/// The connection to a contact, if its address is complete.
pub open spec fn connection(contacts: Seq<ContactData>, contact_id: Seq<char>) -> Seq<ActionData>
    decreases contacts.len(),
{
    if contacts.len() == 0 {
        seq![]
    } else if contacts[0].contact_id == contact_id {
        if reachable(contacts[0].last_address, contacts[0].last_port) {
            seq![
                Effect::Connect {
                    contact_id,
                    address: socket_text(contacts[0].last_address, contacts[0].last_port),
                    pubkey: contacts[0].pubkey,
                },
            ]
        } else {
            seq![]
        }
    } else {
        connection(contacts.drop_first(), contact_id)
    }
}

/// The contact connected to is the first with the identifier, under its own key and at its own
/// address, if that is complete.
pub proof fn connection_is(contacts: Seq<ContactData>, id: Seq<char>, i: int)
    requires
        0 <= i <= contacts.len(),
        forall|k: int| 0 <= k < i ==> (#[trigger] contacts[k]).contact_id != id,
        i < contacts.len() ==> contacts[i].contact_id == id,
    ensures
        connection(contacts, id) == (if i < contacts.len() && reachable(
            contacts[i].last_address,
            contacts[i].last_port,
        ) {
            seq![
                Effect::Connect {
                    contact_id: id,
                    address: socket_text(contacts[i].last_address, contacts[i].last_port),
                    pubkey: contacts[i].pubkey,
                },
            ]
        } else {
            seq![]
        }),
    decreases contacts.len(),
{
    if i > 0 {
        let t = contacts.drop_first();
        assert(contacts[0].contact_id != id);
        assert forall|k: int| 0 <= k < i - 1 implies (#[trigger] t[k]).contact_id != id by {
            assert(t[k] == contacts[k + 1]);
        }
        connection_is(t, id, i - 1);
    }
}

/// The text of the address a contact is reached at, if it is complete.
pub open spec fn contact_address(c: ContactData) -> Option<Seq<char>> {
    if reachable(c.last_address, c.last_port) {
        Some(socket_text(c.last_address, c.last_port))
    } else {
        None
    }
}

/// Writes the address a contact is reached at.
pub fn resolve_peer_addr(contact: &Contact) -> (r: Option<String>)
    ensures
        maybe(r) == contact_address(contact@),
{
    if contact.last_address.as_str().is_empty() || contact.last_port.as_str().is_empty() {
        None
    } else {
        Some(socket_address(contact.last_address.as_str(), contact.last_port.as_str()))
    }
}

fn is_text(s: &Option<String>, t: &str) -> (r: bool)
    ensures
        r == (maybe(*s) == Some(t@)),
{
    match s {
        Some(x) => same(x.as_str(), t),
        None => false,
    }
}

impl Messages {
    /// No conversations yet.
    pub fn new() -> (r: Self)
        ensures
            r@ == no_messages(),
    {
        let incoming: Vec<Request> = Vec::new();
        let progress: Vec<Transfer> = Vec::new();
        assert(views(incoming@) =~= seq![]);
        assert(views(progress@) =~= seq![]);
        Messages {
            active_chat: None,
            input: String::new(),
            show_add_friend: false,
            pending_open: None,
            unread: Table::new(),
            online: Table::new(),
            presence: Table::new(),
            visible: Table::new(),
            progress,
            confirm_delete_chat: None,
            confirm_delete_contact: None,
            requests: Requests {
                incoming,
                ip_input: String::new(),
                port_input: String::new(),
                status: String::new(),
            },
        }
    }

    fn is_viewing(&self, tab: SidebarTab, contact_id: &str) -> (r: bool)
        ensures
            r == viewing(self@, tab, contact_id@),
    {
        tab == SidebarTab::Messages && is_text(&self.active_chat, contact_id)
    }

    fn count_unread(&mut self, tab: SidebarTab, contact_id: &str)
        requires
            value_or(old(self)@.unread, contact_id@, 0) < u32::MAX,
        ensures
            final(self)@ == old(self)@.counted(tab, contact_id@),
    {
        if !self.is_viewing(tab, contact_id) {
            let n: u32 = self.unread.get_or(contact_id, 0);
            self.unread.set(contact_id, n + 1);
        }
    }

    /// A message came in. It is kept; it counts as unread, and may be heard, unless the
    /// user is looking at the chat. `sound_allowed` says that no call is on, `quiet` that
    /// the last sound is long enough ago.
    pub fn on_message(
        &mut self,
        tab: SidebarTab,
        sound_allowed: bool,
        quiet: bool,
        contact_id: &str,
        text: String,
    ) -> (r: Vec<Action>)
        requires
            value_or(old(self)@.unread, contact_id@, 0) < u32::MAX,
        ensures
            final(self)@ == old(self)@.counted(tab, contact_id@),
            asks(
                r@,
                seq![
                    Effect::AppendMessage {
                        contact_id: contact_id@,
                        from_me: false,
                        text: text@,
                        load: true,
                    },
                ] + (if sound_allowed && quiet && !viewing(old(self)@, tab, contact_id@) {
                    seq![Effect::PlaySound]
                } else {
                    seq![]
                }),
            ),
    {
        let seen = self.is_viewing(tab, contact_id);
        let mut todo = no_actions();
        and_then_do(
            &mut todo,
            Effect::AppendMessage {
                contact_id: copy(contact_id),
                from_me: false,
                text,
                load: true,
            },
        );
        self.count_unread(tab, contact_id);
        if sound_allowed && quiet && !seen {
            and_then_do(&mut todo, Effect::PlaySound);
        }
        todo
    }

    /// A contact came online or went offline.
    pub fn on_peer_status(&mut self, contact_id: &str, online: bool)
        ensures
            final(self)@ == old(self)@.peer_is(contact_id@, online),
    {
        self.online.set(contact_id, online);
        if !online {
            self.presence.set(contact_id, PresenceStatus::Offline);
        }
    }

    /// A contact said whether it is there.
    pub fn on_presence(&mut self, contact_id: &str, status: PresenceStatus)
        ensures
            final(self)@ == (MessagesData {
                presence: old(self)@.presence.insert(contact_id@, status),
                ..old(self)@
            }),
    {
        self.presence.set(contact_id, status);
    }

    /// A request that was sent was accepted: the contacts are read again, and the chat
    /// with the new one is opened when that is done.
    pub fn on_request_accepted(&mut self, contact_id: &str) -> (r: Vec<Action>)
        ensures
            final(self)@ == (MessagesData {
                pending_open: Some(contact_id@),
                requests: RequestsData {
                    status: "Request accepted! Contact saved."@,
                    ..old(self)@.requests
                },
                ..old(self)@
            }),
            asks(r@, seq![Effect::ReloadContacts]),
    {
        self.requests.on_accepted();
        self.pending_open = Some(copy(contact_id));
        let mut todo = no_actions();
        and_then_do(&mut todo, Effect::ReloadContacts);
        todo
    }

    /// Opens the chat that waits to be opened.
    pub fn open_pending(&mut self, contacts: &Vec<Contact>) -> (r: Vec<Action>)
        ensures
            old(self)@.pending_open is None ==> final(self)@ == old(self)@ && r@.len() == 0,
            old(self)@.pending_open matches Some(id) ==> {
                &&& final(self)@ == MessagesData { pending_open: None, ..old(self)@ }.opened(id)
                &&& asks(
                    r@,
                    seq![Effect::LoadHistory { contact_id: id }] + connection(views(contacts@), id),
                )
            },
    {
        match self.pending_open.take() {
            Some(id) => self.open_msg_chat(id.as_str(), contacts),
            None => no_actions(),
        }
    }

    /// Opens the chat with a contact: its history is loaded, and the contact connected to
    /// if its address is known.
    pub fn open_msg_chat(&mut self, contact_id: &str, contacts: &Vec<Contact>) -> (r: Vec<Action>)
        ensures
            final(self)@ == old(self)@.opened(contact_id@),
            asks(
                r@,
                seq![Effect::LoadHistory { contact_id: contact_id@ }] + connection(
                    views(contacts@),
                    contact_id@,
                ),
            ),
    {
        let mut todo = no_actions();
        and_then_do(&mut todo, Effect::LoadHistory { contact_id: copy(contact_id) });
        self.active_chat = Some(copy(contact_id));
        self.unread.remove(contact_id);
        self.visible.set(contact_id, MSG_PAGE_SIZE);
        let at: usize = find_contact(contacts, contact_id);
        proof {
            connection_is(views(contacts@), contact_id@, at as int);
        }
        if at < contacts.len() {
            let c = &contacts[at];
            assert(views(contacts@)[at as int] == c@);
            match resolve_peer_addr(c) {
                Some(address) => {
                    and_then_do(
                        &mut todo,
                        Effect::Connect { contact_id: copy(contact_id), address, pubkey: c.pubkey },
                    );
                },
                None => {},
            }
        }
        todo
    }

    /// A peer offers a file. The offer is kept, and counts as unread like a message.
    pub fn on_file_offer(
        &mut self,
        tab: SidebarTab,
        contact_id: &str,
        transfer_id: u32,
        filename: String,
        file_size: u64,
    ) -> (r: Vec<Action>)
        requires
            value_or(old(self)@.unread, contact_id@, 0) < u32::MAX,
        ensures
            final(self)@ == old(self)@.counted(tab, contact_id@),
            asks(
                r@,
                seq![
                    Effect::AppendFile {
                        contact_id: contact_id@,
                        from_me: false,
                        transfer_id,
                        filename: filename@,
                        file_size,
                        load: true,
                    },
                ],
            ),
    {
        let mut todo = no_actions();
        and_then_do(
            &mut todo,
            Effect::AppendFile {
                contact_id: copy(contact_id),
                from_me: false,
                transfer_id,
                filename,
                file_size,
                load: true,
            },
        );
        self.count_unread(tab, contact_id);
        todo
    }

    /// A transfer went on. The first time, the file counts as accepted.
    pub fn on_file_progress(
        &mut self,
        contact_id: &str,
        transfer_id: u32,
        done: u64,
        total: u64,
    ) -> (r: Vec<Action>)
        ensures
            final(self)@ == (MessagesData {
                progress: with_progress(
                    old(self)@.progress,
                    TransferData { contact_id: contact_id@, transfer_id, done, total },
                ),
                ..old(self)@
            }),
            asks(
                r@,
                if followed(old(self)@.progress, contact_id@, transfer_id) {
                    seq![]
                } else {
                    seq![
                        Effect::SetFileStatus {
                            contact_id: contact_id@,
                            transfer_id,
                            status: FileStatus::Accepted,
                            saved_path: None,
                            load: false,
                        },
                    ]
                },
            ),
    {
        let t = Transfer { contact_id: copy(contact_id), transfer_id, done, total };
        let is_new = note_progress(&mut self.progress, t);
        let mut todo = no_actions();
        if is_new {
            and_then_do(
                &mut todo,
                Effect::SetFileStatus {
                    contact_id: copy(contact_id),
                    transfer_id,
                    status: FileStatus::Accepted,
                    saved_path: None,
                    load: false,
                },
            );
        }
        todo
    }

    /// A transfer is complete. An empty path means that nothing was saved here.
    pub fn on_file_complete(&mut self, contact_id: &str, transfer_id: u32, saved_path: String) -> (r:
        Vec<Action>)
        ensures
            final(self)@ == (MessagesData {
                progress: without_transfer(old(self)@.progress, contact_id@, transfer_id),
                ..old(self)@
            }),
            asks(
                r@,
                seq![
                    Effect::SetFileStatus {
                        contact_id: contact_id@,
                        transfer_id,
                        status: FileStatus::Completed,
                        saved_path: if saved_path@.len() == 0 {
                            None
                        } else {
                            Some(saved_path@)
                        },
                        load: true,
                    },
                ],
            ),
    {
        forget_transfer(&mut self.progress, contact_id, transfer_id);
        let path = if saved_path.as_str().is_empty() {
            None
        } else {
            Some(saved_path)
        };
        let mut todo = no_actions();
        and_then_do(
            &mut todo,
            Effect::SetFileStatus {
                contact_id: copy(contact_id),
                transfer_id,
                status: FileStatus::Completed,
                saved_path: path,
                load: true,
            },
        );
        todo
    }

    /// A transfer failed.
    pub fn on_file_failed(&mut self, contact_id: &str, transfer_id: u32, reason: String) -> (r: Vec<
        Action,
    >)
        ensures
            final(self)@ == (MessagesData {
                progress: without_transfer(old(self)@.progress, contact_id@, transfer_id),
                ..old(self)@
            }),
            asks(
                r@,
                seq![
                    Effect::SetFileStatus {
                        contact_id: contact_id@,
                        transfer_id,
                        status: FileStatus::Failed(reason@),
                        saved_path: None,
                        load: true,
                    },
                ],
            ),
    {
        forget_transfer(&mut self.progress, contact_id, transfer_id);
        let mut todo = no_actions();
        and_then_do(
            &mut todo,
            Effect::SetFileStatus {
                contact_id: copy(contact_id),
                transfer_id,
                status: FileStatus::Failed(reason),
                saved_path: None,
                load: true,
            },
        );
        todo
    }

    /// The user accepts an offered file.
    pub fn accept_file(&self, contact_id: &str, transfer_id: u32) -> (r: Vec<Action>)
        ensures
            asks(
                r@,
                seq![
                    Effect::SetFileStatus {
                        contact_id: contact_id@,
                        transfer_id,
                        status: FileStatus::Accepted,
                        saved_path: None,
                        load: false,
                    },
                    Effect::AcceptFile { contact_id: contact_id@, transfer_id },
                ],
            ),
    {
        let mut todo = no_actions();
        and_then_do(
            &mut todo,
            Effect::SetFileStatus {
                contact_id: copy(contact_id),
                transfer_id,
                status: FileStatus::Accepted,
                saved_path: None,
                load: false,
            },
        );
        and_then_do(&mut todo, Effect::AcceptFile { contact_id: copy(contact_id), transfer_id });
        todo
    }

    /// The user declines an offered file.
    pub fn reject_file(&self, contact_id: &str, transfer_id: u32) -> (r: Vec<Action>)
        ensures
            asks(
                r@,
                seq![
                    Effect::SetFileStatus {
                        contact_id: contact_id@,
                        transfer_id,
                        status: FileStatus::Rejected,
                        saved_path: None,
                        load: false,
                    },
                    Effect::RejectFile { contact_id: contact_id@, transfer_id },
                ],
            ),
    {
        let mut todo = no_actions();
        and_then_do(
            &mut todo,
            Effect::SetFileStatus {
                contact_id: copy(contact_id),
                transfer_id,
                status: FileStatus::Rejected,
                saved_path: None,
                load: false,
            },
        );
        and_then_do(&mut todo, Effect::RejectFile { contact_id: copy(contact_id), transfer_id });
        todo
    }

    /// The user stops a transfer.
    pub fn cancel_file(&mut self, contact_id: &str, transfer_id: u32) -> (r: Vec<Action>)
        ensures
            final(self)@ == (MessagesData {
                progress: without_transfer(old(self)@.progress, contact_id@, transfer_id),
                ..old(self)@
            }),
            asks(
                r@,
                seq![
                    Effect::SetFileStatus {
                        contact_id: contact_id@,
                        transfer_id,
                        status: FileStatus::Cancelled,
                        saved_path: None,
                        load: false,
                    },
                    Effect::CancelFile { contact_id: contact_id@, transfer_id },
                ],
            ),
    {
        forget_transfer(&mut self.progress, contact_id, transfer_id);
        let mut todo = no_actions();
        and_then_do(
            &mut todo,
            Effect::SetFileStatus {
                contact_id: copy(contact_id),
                transfer_id,
                status: FileStatus::Cancelled,
                saved_path: None,
                load: false,
            },
        );
        and_then_do(&mut todo, Effect::CancelFile { contact_id: copy(contact_id), transfer_id });
        todo
    }

    /// Sends what was typed in the open chat, unless it is blank. It is kept, and sent to
    /// the contact if its address is known. `contact` is the contact of the chat, if it is
    /// still one.
    pub fn send_text(&mut self, contact_id: &str, contact: Option<&Contact>) -> (r: Vec<Action>)
        ensures
            trimmed(old(self)@.input).len() == 0 ==> final(self)@ == old(self)@ && r@.len() == 0,
            trimmed(old(self)@.input).len() > 0 ==> {
                &&& final(self)@ == (MessagesData { input: seq![], ..old(self)@ })
                &&& asks(
                    r@,
                    seq![
                        Effect::AppendMessage {
                            contact_id: contact_id@,
                            from_me: true,
                            text: trimmed(old(self)@.input),
                            load: false,
                        },
                    ] + (match contact {
                        Some(c) => match contact_address(c@) {
                            Some(address) => seq![
                                Effect::SendText {
                                    contact_id: contact_id@,
                                    address,
                                    pubkey: c@.pubkey,
                                    text: trimmed(old(self)@.input),
                                },
                            ],
                            None => seq![],
                        },
                        None => seq![],
                    }),
                )
            },
    {
        let text = trim(self.input.as_str());
        let mut todo = no_actions();
        if text.as_str().is_empty() {
            return todo;
        }
        self.input = String::new();
        and_then_do(
            &mut todo,
            Effect::AppendMessage {
                contact_id: copy(contact_id),
                from_me: true,
                text: copy(text.as_str()),
                load: false,
            },
        );
        match contact {
            Some(c) => {
                match resolve_peer_addr(c) {
                    Some(address) => {
                        and_then_do(
                            &mut todo,
                            Effect::SendText {
                                contact_id: copy(contact_id),
                                address,
                                pubkey: c.pubkey,
                                text,
                            },
                        );
                    },
                    None => {},
                }
            },
            None => {},
        }
        todo
    }

    /// Offers a file to a contact. The offer is kept; its number is given later.
    pub fn offer_file(
        &self,
        contact_id: &str,
        contact: &Contact,
        path: &str,
        filename: &str,
        file_size: u64,
    ) -> (r: Vec<Action>)
        ensures
            asks(
                r@,
                seq![
                    Effect::AppendFile {
                        contact_id: contact_id@,
                        from_me: true,
                        transfer_id: 0,
                        filename: filename@,
                        file_size,
                        load: false,
                    },
                ] + (match contact_address(contact@) {
                    Some(address) => seq![
                        Effect::OfferFile {
                            contact_id: contact_id@,
                            address,
                            pubkey: contact@.pubkey,
                            path: path@,
                        },
                    ],
                    None => seq![],
                }),
            ),
    {
        let mut todo = no_actions();
        and_then_do(
            &mut todo,
            Effect::AppendFile {
                contact_id: copy(contact_id),
                from_me: true,
                transfer_id: 0,
                filename: copy(filename),
                file_size,
                load: false,
            },
        );
        match resolve_peer_addr(contact) {
            Some(address) => {
                and_then_do(
                    &mut todo,
                    Effect::OfferFile {
                        contact_id: copy(contact_id),
                        address,
                        pubkey: contact.pubkey,
                        path: copy(path),
                    },
                );
            },
            None => {},
        }
        todo
    }

    /// Answers the question whether to delete a contact. Agreed to, the contact is
    /// deleted on both sides and everything about it forgotten.
    pub fn answer_delete_contact(&mut self, contacts: &Vec<Contact>, agreed: bool) -> (r: Vec<Action>)
        ensures
            ({
                let at = old(self)@.confirm_delete_contact;
                if agreed && at is Some && at.unwrap() < contacts@.len() {
                    let c = views(contacts@)[at.unwrap() as int];
                    &&& final(self)@ == old(self)@.without_contact(c.contact_id)
                    &&& asks(
                        r@,
                        seq![
                            Effect::DeleteContact { contact_id: c.contact_id, pubkey: c.pubkey },
                            Effect::ForgetContact { contact_id: c.contact_id },
                            Effect::ReloadContacts,
                        ],
                    )
                } else {
                    &&& final(self)@ == (MessagesData {
                        confirm_delete_contact: None,
                        ..old(self)@
                    })
                    &&& r@.len() == 0
                }
            }),
    {
        let mut todo = no_actions();
        let at = self.confirm_delete_contact.take();
        if !agreed {
            return todo;
        }
        match at {
            Some(i) => {
                if i < contacts.len() {
                    let c = &contacts[i];
                    assert(views(contacts@)[i as int] == c@);
                    let id = c.contact_id.as_str();
                    if is_text(&self.active_chat, id) {
                        self.active_chat = None;
                    }
                    self.online.remove(id);
                    self.presence.remove(id);
                    self.unread.remove(id);
                    and_then_do(
                        &mut todo,
                        Effect::DeleteContact { contact_id: copy(id), pubkey: c.pubkey },
                    );
                    and_then_do(&mut todo, Effect::ForgetContact { contact_id: copy(id) });
                    and_then_do(&mut todo, Effect::ReloadContacts);
                }
            },
            None => {},
        }
        todo
    }

    /// Answers the question whether to delete the messages of the open chat.
    pub fn answer_delete_chat(&mut self, contact_id: &str, agreed: bool) -> (r: Vec<Action>)
        ensures
            final(self)@ == (MessagesData { confirm_delete_chat: None, ..old(self)@ }),
            asks(
                r@,
                if agreed {
                    seq![Effect::DeleteHistory { contact_id: contact_id@ }]
                } else {
                    seq![]
                },
            ),
    {
        self.confirm_delete_chat = None;
        let mut todo = no_actions();
        if agreed {
            and_then_do(&mut todo, Effect::DeleteHistory { contact_id: copy(contact_id) });
        }
        todo
    }

    /// How many messages of a chat are passed over: all but the last ones it shows.
    pub fn skipped_messages(&self, contact_id: &str, count: usize) -> (r: usize)
        ensures
            ({
                let shown = value_or(self@.visible, contact_id@, MSG_PAGE_SIZE);
                r == (if count > shown {
                    count - shown
                } else {
                    0
                })
            }),
    {
        let shown: usize = self.visible.get_or(contact_id, MSG_PAGE_SIZE);
        if count > shown {
            count - shown
        } else {
            0
        }
    }

    /// Shows one page more of a chat that has older messages. The answer says whether it
    /// had.
    pub fn show_older(&mut self, contact_id: &str, count: usize) -> (r: bool)
        requires
            value_or(old(self)@.visible, contact_id@, MSG_PAGE_SIZE) + MSG_PAGE_SIZE <= usize::MAX,
        ensures
            ({
                let shown = value_or(old(self)@.visible, contact_id@, MSG_PAGE_SIZE);
                &&& r == (count > shown)
                &&& final(self)@ == (if count > shown {
                    MessagesData {
                        visible: old(self)@.visible.insert(
                            contact_id@,
                            (shown + MSG_PAGE_SIZE) as usize,
                        ),
                        ..old(self)@
                    }
                } else {
                    old(self)@
                })
            }),
    {
        let shown: usize = self.visible.get_or(contact_id, MSG_PAGE_SIZE);
        if count > shown {
            self.visible.set(contact_id, shown + MSG_PAGE_SIZE);
            true
        } else {
            false
        }
    }

    /// The presence shown for a contact.
    pub fn presence_of(&self, contact_id: &str) -> (r: PresenceStatus)
        ensures
            r == shown_presence(self@, contact_id@),
    {
        let fallback = if self.online.get_or(contact_id, false) {
            PresenceStatus::Online
        } else {
            PresenceStatus::Offline
        };
        self.presence.get_or(contact_id, fallback)
    }

    /// The number of unread messages in all chats.
    pub fn total_unread(&self) -> (r: u32)
        requires
            sum_of(self@.unread) <= u32::MAX,
        ensures
            r == sum_of(self@.unread),
    {
        self.unread.total()
    }

    /// The same where the number may be too large to be shown: there is none then.
    pub fn checked_total_unread(&self) -> (r: Option<u32>)
        ensures
            r is Some <==> sum_of(self@.unread) <= u32::MAX,
            r matches Some(n) ==> n == sum_of(self@.unread),
    {
        self.unread.checked_total()
    }

    /// The user chooses a conversation: its chat is opened, and the form to add a friend
    /// closed.
    pub fn choose_conversation(&mut self, contact_id: &str, contacts: &Vec<Contact>) -> (r: Vec<
        Action,
    >)
        ensures
            final(self)@ == (MessagesData {
                show_add_friend: false,
                ..old(self)@.opened(contact_id@)
            }),
            asks(
                r@,
                seq![Effect::LoadHistory { contact_id: contact_id@ }] + connection(
                    views(contacts@),
                    contact_id@,
                ),
            ),
    {
        self.show_add_friend = false;
        self.open_msg_chat(contact_id, contacts)
    }

    /// Asks whether to delete the contact of a line in the list of conversations. This is not
    /// offered on the line of oneself, which is known by its name, and comes to nothing where
    /// there is no such contact.
    pub fn ask_delete_contact(&mut self, row: &Conversation, contacts: &Vec<Contact>)
        ensures
            ({
                let known = exists|i: int| #[trigger]
                    first_with_id(views(contacts@), row@.contact_id, i);
                row@.name == "YO (you)"@ || !known ==> final(self)@ == old(self)@
            }),
            forall|i: int| #[trigger]
                first_with_id(views(contacts@), row@.contact_id, i) && row@.name != "YO (you)"@
                    ==> final(self)@ == (MessagesData {
                    confirm_delete_contact: Some(i as usize),
                    ..old(self)@
                }),
    {
        let at: usize = find_contact(contacts, row.contact_id.as_str());
        let ghost cs = views(contacts@);
        let ghost id = row@.contact_id;
        if at < contacts.len() {
            assert(first_with_id(cs, id, at as int));
            assert forall|i: int| #[trigger] first_with_id(cs, id, i) implies i == at by {
                if i < at {
                    assert(cs[i].contact_id != id);
                }
            }
            if !same(row.name.as_str(), "YO (you)") {
                self.confirm_delete_contact = Some(at);
            }
        } else {
            assert forall|i: int| !#[trigger] first_with_id(cs, id, i) by {
                if 0 <= i < cs.len() {
                    assert(cs[i].contact_id != id);
                }
            }
        }
    }

    /// Opens or closes the form to add a friend; no chat stays open.
    pub fn toggle_add_friend(&mut self)
        ensures
            final(self)@ == (MessagesData {
                show_add_friend: !old(self)@.show_add_friend,
                active_chat: None,
                ..old(self)@
            }),
    {
        self.show_add_friend = !self.show_add_friend;
        self.active_chat = None;
    }
}

/// Opening a chat leaves nothing unread in it, and counts of other chats alone; a message
/// that comes while it is open and shown does not count.
pub proof fn opening_clears_unread(m: MessagesData, id: Seq<char>, other: Seq<char>)
    requires
        other != id,
    ensures
        value_or(m.opened(id).unread, id, 0) == 0,
        value_or(m.opened(id).unread, other, 0) == value_or(m.unread, other, 0),
        m.opened(id).counted(SidebarTab::Messages, id) == m.opened(id),
{
}

/// A message that the user does not see raises the count of its chat by one, and no other.
pub proof fn unseen_message_counts(
    m: MessagesData,
    tab: SidebarTab,
    id: Seq<char>,
    other: Seq<char>,
)
    requires
        !viewing(m, tab, id),
        other != id,
        value_or(m.unread, id, 0) < u32::MAX,
    ensures
        value_or(m.counted(tab, id).unread, id, 0) == value_or(m.unread, id, 0) + 1,
        value_or(m.counted(tab, id).unread, other, 0) == value_or(m.unread, other, 0),
{
}

/// A contact that went offline is shown as offline, whatever it said before.
pub proof fn offline_is_shown(m: MessagesData, id: Seq<char>)
    ensures
        shown_presence(m.peer_is(id, false), id) == PresenceStatus::Offline,
{
}

/// The last message of a conversation.
pub struct LastMessage {
    pub from_me: bool,
    pub text: String,
    pub timestamp: u64,
}

/// A line of the list of conversations.
pub struct Conversation {
    pub contact_id: String,
    pub name: String,
    pub preview: String,
    pub online: bool,
    pub unread: u32,
    pub last: u64,
}

/// A line of the list of conversations as mathematical data.
#[verifier::ext_equal]
pub struct ConversationData {
    pub contact_id: Seq<char>,
    pub name: Seq<char>,
    pub preview: Seq<char>,
    pub online: bool,
    pub unread: u32,
    pub last: u64,
}

impl View for Conversation {
    type V = ConversationData;

    open spec fn view(&self) -> ConversationData {
        ConversationData {
            contact_id: self.contact_id@,
            name: self.name@,
            preview: self.preview@,
            online: self.online,
            unread: self.unread,
            last: self.last,
        }
    }
}

/// The name a contact is listed under: oneself under a fixed one, others under their
/// nickname, or their fingerprint if they have none.
pub open spec fn listed_name(c: ContactData, me: Seq<u8>) -> Seq<char> {
    if c.pubkey == me {
        "YO (you)"@
    } else {
        shown_name(c)
    }
}

/// The nickname of a contact, or its fingerprint if it has none.
pub open spec fn shown_name(c: ContactData) -> Seq<char> {
    if c.nickname.len() == 0 {
        c.fingerprint
    } else {
        c.nickname
    }
}

/// The name shown for a contact.
pub fn contact_name(c: &Contact) -> (r: String)
    ensures
        r@ == shown_name(c@),
{
    if c.nickname.as_str().is_empty() {
        copy(c.fingerprint.as_str())
    } else {
        copy(c.nickname.as_str())
    }
}

/// The name above a chat, whose contact may be gone.
pub fn chat_title(c: Option<&Contact>) -> (r: String)
    ensures
        r@ == (match c {
            Some(c) => shown_name(c@),
            None => "Unknown"@,
        }),
{
    match c {
        Some(c) => contact_name(c),
        None => copy("Unknown"),
    }
}

/// The start of the last message, with a mark on one's own.
pub open spec fn preview_of(last: Map<Seq<char>, LastMessage>, id: Seq<char>) -> Seq<char> {
    if last.contains_key(id) {
        (if last[id].from_me {
            "You: "@
        } else {
            seq![]
        }) + cut(last[id].text@, 25)
    } else {
        seq![]
    }
}

/// The line of one contact.
pub open spec fn conversation_of(
    c: ContactData,
    me: Seq<u8>,
    m: MessagesData,
    last: Map<Seq<char>, LastMessage>,
) -> ConversationData {
    ConversationData {
        contact_id: c.contact_id,
        name: listed_name(c, me),
        preview: preview_of(last, c.contact_id),
        online: value_or(m.online, c.contact_id, false),
        unread: value_or(m.unread, c.contact_id, 0),
        last: if last.contains_key(c.contact_id) {
            last[c.contact_id].timestamp
        } else {
            0
        },
    }
}

/// The lines of all contacts that are not blocked, in the order of the contacts.
pub open spec fn conversations(
    contacts: Seq<ContactData>,
    blocked: Seq<Seq<char>>,
    me: Seq<u8>,
    m: MessagesData,
    last: Map<Seq<char>, LastMessage>,
) -> Seq<ConversationData>
    decreases contacts.len(),
{
    if contacts.len() == 0 {
        seq![]
    } else {
        let done = conversations(contacts.drop_last(), blocked, me, m, last);
        let c = contacts.last();
        if blocked.contains(hex(c.pubkey)) {
            done
        } else {
            done.push(conversation_of(c, me, m, last))
        }
    }
}

/// Each conversation listed is with a contact that is not blocked, and each such contact has
/// one.
pub proof fn blocked_contacts_are_not_listed(
    contacts: Seq<ContactData>,
    blocked: Seq<Seq<char>>,
    me: Seq<u8>,
    m: MessagesData,
    last: Map<Seq<char>, LastMessage>,
)
    ensures
        forall|i: int|
            0 <= i < conversations(contacts, blocked, me, m, last).len() ==> exists|k: int|
                0 <= k < contacts.len() && !blocked.contains(hex((#[trigger] contacts[k]).pubkey))
                    && #[trigger] conversations(contacts, blocked, me, m, last)[i]
                    == conversation_of(contacts[k], me, m, last),
        forall|k: int|
            0 <= k < contacts.len() && !blocked.contains(hex((#[trigger] contacts[k]).pubkey))
                ==> conversations(contacts, blocked, me, m, last).contains(
                conversation_of(contacts[k], me, m, last),
            ),
    decreases contacts.len(),
{
    if contacts.len() > 0 {
        let head = contacts.drop_last();
        let n = contacts.len() - 1;
        let done = conversations(head, blocked, me, m, last);
        let all = conversations(contacts, blocked, me, m, last);
        blocked_contacts_are_not_listed(head, blocked, me, m, last);
        assert forall|i: int| 0 <= i < all.len() implies exists|k: int|
            0 <= k < contacts.len() && !blocked.contains(hex((#[trigger] contacts[k]).pubkey))
                && #[trigger] all[i] == conversation_of(contacts[k], me, m, last) by {
            if i < done.len() {
                assert(all[i] == done[i]);
                let k = choose|k: int|
                    0 <= k < head.len() && !blocked.contains(hex((#[trigger] head[k]).pubkey))
                        && done[i] == conversation_of(head[k], me, m, last);
                assert(contacts[k] == head[k]);
            } else {
                assert(contacts[n] == contacts.last());
                assert(all[i] == conversation_of(contacts[n], me, m, last));
            }
        }
        assert forall|k: int|
            0 <= k < contacts.len() && !blocked.contains(
                hex((#[trigger] contacts[k]).pubkey),
            ) implies all.contains(conversation_of(contacts[k], me, m, last)) by {
            let c = conversation_of(contacts[k], me, m, last);
            if k < n {
                assert(head[k] == contacts[k]);
                let i = done.index_of(c);
                assert(all[i] == c);
            } else {
                assert(all.last() == c);
            }
        }
    }
}

impl Ranked for Conversation {
    /// Oneself comes first, then who is online, then the chat with the latest message.
    open spec fn precedes(self, other: Self) -> bool {
        let mine = self.name@ == "YO (you)"@;
        let theirs = other.name@ == "YO (you)"@;
        if mine != theirs {
            mine
        } else if self.online != other.online {
            self.online
        } else {
            self.last > other.last
        }
    }

    proof fn weak_order(a: Self, b: Self, c: Self) {
    }

    fn goes_before(&self, other: &Self) -> (r: bool) {
        let mine = same(self.name.as_str(), "YO (you)");
        let theirs = same(other.name.as_str(), "YO (you)");
        if mine != theirs {
            mine
        } else if self.online != other.online {
            self.online
        } else {
            self.last > other.last
        }
    }
}

/// Whether the last message of a contact can be cut for its preview.
pub open spec fn previewable(last: Map<Seq<char>, LastMessage>, id: Seq<char>) -> bool {
    last.contains_key(id) ==> cuttable(last[id].text@, 25)
}

/// Lists the conversations: contacts that are not blocked, oneself first, then who is
/// online, then by the latest message.
pub fn list_conversations(
    contacts: &Vec<Contact>,
    settings: &Settings,
    me: &[u8; 32],
    messages: &Messages,
    last: &Table<LastMessage>,
) -> (r: Vec<Conversation>)
    requires
        forall|i: int|
            0 <= i < contacts@.len() && !settings@.blocked.contains(
                hex((#[trigger] views(contacts@)[i]).pubkey),
            ) ==> previewable(last@, views(contacts@)[i].contact_id),
    ensures
        exists|lines: Seq<Conversation>| #[trigger]
            stable_sort_of(lines, r@) && views(lines) == conversations(
                views(contacts@),
                settings@.blocked,
                me@,
                messages@,
                last@,
            ),
{
    let ghost cs = views(contacts@);
    let mut out: Vec<Conversation> = Vec::new();
    let mut i: usize = 0;
    proof {
        assert(cs.take(0) =~= Seq::<ContactData>::empty());
        assert(views(out@) =~= Seq::<ConversationData>::empty());
    }
    while i < contacts.len()
        invariant
            i <= contacts@.len(),
            cs == views(contacts@),
            forall|i: int|
                0 <= i < contacts@.len() && !settings@.blocked.contains(
                    hex((#[trigger] cs[i]).pubkey),
                ) ==> previewable(last@, cs[i].contact_id),
            views(out@) == conversations(
                cs.take(i as int),
                settings@.blocked,
                me@,
                messages@,
                last@,
            ),
        decreases contacts@.len() - i,
    {
        let ghost before = out@;
        let c = &contacts[i];
        assert(cs[i as int] == c@);
        let key = pubkey_hex(&c.pubkey);
        if !settings.is_blocked(key.as_str()) {
            let id = c.contact_id.as_str();
            let name = if same_key(&c.pubkey, me) {
                copy("YO (you)")
            } else {
                contact_name(c)
            };
            let (preview, at) = match last.get(id) {
                Some(m) => {
                    let short = first_bytes(m.text.as_str(), 25);
                    let text = if m.from_me {
                        concat("You: ", short.as_str())
                    } else {
                        short
                    };
                    assert(text@ =~= preview_of(last@, id@));
                    (text, m.timestamp)
                },
                None => (String::new(), 0u64),
            };
            let online = messages.online.get_or(id, false);
            let unread: u32 = messages.unread.get_or(id, 0);
            out.push(
                Conversation { contact_id: copy(id), name, preview, online, unread, last: at },
            );
            assert(views(out@) =~= views(before).push(conversation_of(c@, me@, messages@, last@)));
        }
        proof {
            let now = cs.take(i + 1);
            assert(now.drop_last() =~= cs.take(i as int));
            assert(now.last() == contacts@[i as int]@);
        }
        i = i + 1;
    }
    assert(cs.take(i as int) =~= cs);
    let ghost lines = out@;
    sort_stably(&mut out);
    assert(stable_sort_of(lines, out@));
    out
}

/// Whether a contact is found by a search text in lower case: an empty one finds all.
pub open spec fn found_by(c: ContactData, search: Seq<char>) -> bool {
    search.len() == 0 || contains_text(lowercase(c.nickname), search) || contains_text(
        lowercase(c.fingerprint),
        search,
    )
}

/// Decides whether a search in lower case finds a contact.
pub fn is_found_by(c: &Contact, search: &str) -> (r: bool)
    ensures
        r == found_by(c@, search@),
{
    search.is_empty() || contains(to_lowercase(c.nickname.as_str()).as_str(), search) || contains(
        to_lowercase(c.fingerprint.as_str()).as_str(),
        search,
    )
}

/// The positions of the contacts that a search finds, among oneself or among the others.
pub open spec fn found_among(
    contacts: Seq<ContactData>,
    me: Seq<u8>,
    search: Seq<char>,
    oneself: bool,
) -> Seq<usize>
    decreases contacts.len(),
{
    if contacts.len() == 0 {
        seq![]
    } else {
        let done = found_among(contacts.drop_last(), me, search, oneself);
        let c = contacts.last();
        if (c.pubkey == me) == oneself && found_by(c, search) {
            done.push((contacts.len() - 1) as usize)
        } else {
            done
        }
    }
}

fn push_found(
    contacts: &Vec<Contact>,
    me: &[u8; 32],
    search: &str,
    oneself: bool,
    out: &mut Vec<usize>,
)
    ensures
        final(out)@ == old(out)@ + found_among(views(contacts@), me@, search@, oneself),
{
    let ghost cs = views(contacts@);
    let ghost start = out@;
    let mut i: usize = 0;
    proof {
        assert(cs.take(0) =~= Seq::<ContactData>::empty());
        assert(start + found_among(cs.take(0), me@, search@, oneself) =~= start);
    }
    while i < contacts.len()
        invariant
            i <= contacts@.len(),
            cs == views(contacts@),
            out@ == start + found_among(cs.take(i as int), me@, search@, oneself),
        decreases contacts@.len() - i,
    {
        let ghost held = out@;
        let c = &contacts[i];
        if same_key(&c.pubkey, me) == oneself && is_found_by(c, search) {
            out.push(i);
        }
        proof {
            let now = cs.take(i + 1);
            assert(now.drop_last() =~= cs.take(i as int));
            assert(now.last() == contacts@[i as int]@);
            assert(out@ =~= start + found_among(now, me@, search@, oneself));
        }
        i = i + 1;
    }
    assert(cs.take(i as int) =~= cs);
}

/// The contacts that the list of friends shows for what was typed into the search, by
/// position: oneself first.
pub fn friend_rows(contacts: &Vec<Contact>, me: &[u8; 32], typed: &str) -> (r: Vec<usize>)
    ensures
        r@ == found_among(views(contacts@), me@, lowercase(typed@), true) + found_among(
            views(contacts@),
            me@,
            lowercase(typed@),
            false,
        ),
{
    let search = to_lowercase(typed);
    let mut out: Vec<usize> = Vec::new();
    push_found(contacts, me, search.as_str(), true, &mut out);
    push_found(contacts, me, search.as_str(), false, &mut out);
    assert(out@ =~= found_among(views(contacts@), me@, search@, true) + found_among(
        views(contacts@),
        me@,
        search@,
        false,
    ));
    out
}

/// A new request goes behind the others, which stay as they were; one that was answered is
/// taken out, and the others stay as they were and in their order. The answer holds the
/// positions of those that stay.
pub proof fn other_requests_stay(list: Seq<RequestData>, r: RequestData) -> (src: Seq<int>)
    ensures
        with_request(list, r).take(list.len() as int) == list,
        (exists|k: int| 0 <= k < list.len() && (#[trigger] list[k]).request_id == r.request_id)
            ==> with_request(list, r).len() == list.len(),
        (forall|k: int| 0 <= k < list.len() ==> (#[trigger] list[k]).request_id != r.request_id)
            ==> with_request(list, r).len() == list.len() + 1 && with_request(list, r).last() == r,
        picks(src, list.len() as int),
        src.len() == without_request(list, r.request_id).len(),
        forall|i: int|
            0 <= i < src.len() ==> without_request(list, r.request_id)[i] == list[#[trigger] src[i]]
                && list[src[i]].request_id != r.request_id,
        forall|k: int|
            0 <= k < list.len() && (#[trigger] list[k]).request_id != r.request_id ==> src.contains(
                k,
            ),
{
    assert(list.push(r).take(list.len() as int) =~= list);
    assert(list.take(list.len() as int) =~= list);
    kept_in_order(list, other_request(r.request_id))
}

/// At first there are no conversations, no requests and no questions.
pub proof fn nothing_is_there_at_first(id: Seq<char>)
    ensures
        ({
            let m = no_messages();
            &&& m.active_chat is None
            &&& m.input.len() == 0
            &&& !m.show_add_friend
            &&& m.pending_open is None
            &&& !m.unread.contains_key(id)
            &&& !m.online.contains_key(id)
            &&& !m.presence.contains_key(id)
            &&& !m.visible.contains_key(id)
            &&& m.progress.len() == 0
            &&& m.confirm_delete_chat is None
            &&& m.confirm_delete_contact is None
            &&& m.requests.incoming.len() == 0
            &&& m.requests.ip_input.len() == 0
            &&& m.requests.port_input.len() == 0
            &&& m.requests.status.len() == 0
        }),
{
}

/// A chat is looked at exactly if it is the open one and the messages are shown.
pub proof fn the_open_chat_is_looked_at(m: MessagesData, tab: SidebarTab, id: Seq<char>)
    ensures
        m.active_chat == Some(id) ==> (viewing(m, tab, id) <==> tab is Messages),
        m.active_chat != Some(id) ==> !viewing(m, tab, id),
        viewing(m.opened(id), tab, id) <==> tab is Messages,
{
}

/// A message that comes in changes nothing but the number of unread messages, and not even
/// that if the chat is looked at.
pub proof fn counting_changes_nothing_else(m: MessagesData, tab: SidebarTab, id: Seq<char>)
    ensures
        ({
            let after = m.counted(tab, id);
            &&& tab is Messages && m.active_chat == Some(id) ==> after == m
            &&& after.unread.remove(id) == m.unread.remove(id)
            &&& after.active_chat == m.active_chat
            &&& after.input == m.input
            &&& after.show_add_friend == m.show_add_friend
            &&& after.pending_open == m.pending_open
            &&& after.online == m.online
            &&& after.presence == m.presence
            &&& after.visible == m.visible
            &&& after.progress == m.progress
            &&& after.confirm_delete_chat == m.confirm_delete_chat
            &&& after.confirm_delete_contact == m.confirm_delete_contact
            &&& after.requests == m.requests
        }),
{
    assert(m.counted(tab, id).unread.remove(id) =~= m.unread.remove(id));
}

/// Opening a chat makes it the open one, and shows one page of it. It changes nothing of
/// other chats, and nothing else.
pub proof fn opening_changes_nothing_else(m: MessagesData, id: Seq<char>)
    ensures
        ({
            let after = m.opened(id);
            &&& after.active_chat == Some(id)
            &&& !after.unread.contains_key(id)
            &&& after.unread.remove(id) == m.unread.remove(id)
            &&& after.visible.contains_key(id)
            &&& after.visible[id] == MSG_PAGE_SIZE
            &&& after.visible.remove(id) == m.visible.remove(id)
            &&& after.input == m.input
            &&& after.show_add_friend == m.show_add_friend
            &&& after.pending_open == m.pending_open
            &&& after.online == m.online
            &&& after.presence == m.presence
            &&& after.progress == m.progress
            &&& after.confirm_delete_chat == m.confirm_delete_chat
            &&& after.confirm_delete_contact == m.confirm_delete_contact
            &&& after.requests == m.requests
        }),
{
    assert(m.opened(id).unread.remove(id) =~= m.unread.remove(id));
    assert(m.opened(id).visible.remove(id) =~= m.visible.remove(id));
}

/// What is known of a contact being there is the last that was heard, and a contact that is
/// gone is offline whatever it said. Nothing changes of other contacts, and nothing else.
pub proof fn presence_is_the_last_heard(m: MessagesData, id: Seq<char>, online: bool)
    ensures
        ({
            let after = m.peer_is(id, online);
            &&& after.online.contains_key(id)
            &&& after.online[id] == online
            &&& after.online.remove(id) == m.online.remove(id)
            &&& online ==> after.presence == m.presence
            &&& !online ==> after.presence.contains_key(id) && after.presence[id] is Offline
            &&& after.presence.remove(id) == m.presence.remove(id)
            &&& after.active_chat == m.active_chat
            &&& after.input == m.input
            &&& after.show_add_friend == m.show_add_friend
            &&& after.pending_open == m.pending_open
            &&& after.unread == m.unread
            &&& after.visible == m.visible
            &&& after.progress == m.progress
            &&& after.confirm_delete_chat == m.confirm_delete_chat
            &&& after.confirm_delete_contact == m.confirm_delete_contact
            &&& after.requests == m.requests
        }),
{
    assert(m.peer_is(id, online).online.remove(id) =~= m.online.remove(id));
    assert(m.peer_is(id, online).presence.remove(id) =~= m.presence.remove(id));
}

/// Of a deleted contact nothing is kept: neither whether it is there, nor what is unread, nor
/// its chat as the open one. Nothing changes of other contacts.
pub proof fn deleting_forgets_one_contact(m: MessagesData, id: Seq<char>)
    ensures
        ({
            let after = m.without_contact(id);
            &&& m.active_chat == Some(id) ==> after.active_chat is None
            &&& m.active_chat != Some(id) ==> after.active_chat == m.active_chat
            &&& !after.online.contains_key(id)
            &&& !after.presence.contains_key(id)
            &&& !after.unread.contains_key(id)
            &&& after.online == m.online.remove(id)
            &&& after.presence == m.presence.remove(id)
            &&& after.unread == m.unread.remove(id)
            &&& after.confirm_delete_contact is None
            &&& after.input == m.input
            &&& after.show_add_friend == m.show_add_friend
            &&& after.pending_open == m.pending_open
            &&& after.visible == m.visible
            &&& after.progress == m.progress
            &&& after.confirm_delete_chat == m.confirm_delete_chat
            &&& after.requests == m.requests
        }),
{
}

/// A contact is shown as it last said that it is; one that said nothing is shown as online
/// exactly if it is known to be.
pub proof fn presence_is_what_was_said(m: MessagesData, id: Seq<char>)
    ensures
        m.presence.contains_key(id) ==> shown_presence(m, id) == m.presence[id],
        !m.presence.contains_key(id) ==> (if m.online.contains_key(id) && m.online[id] {
            shown_presence(m, id) is Online
        } else {
            shown_presence(m, id) is Offline
        }),
{
}

/// A contact is reached at its own address, and only where neither part of it is missing.
pub proof fn contacts_are_reached_at_their_address(c: ContactData)
    ensures
        contact_address(c) is Some <==> c.last_address.len() > 0 && c.last_port.len() > 0,
        contact_address(c) is Some ==> contact_address(c).unwrap() == socket_text(
            c.last_address,
            c.last_port,
        ),
{
}

/// A contact goes by its nickname, by its fingerprint where it has none, and oneself by a
/// name of its own in the list of conversations.
pub proof fn contacts_go_by_their_name(c: ContactData, me: Seq<u8>)
    ensures
        c.nickname.len() > 0 ==> shown_name(c) == c.nickname,
        c.nickname.len() == 0 ==> shown_name(c) == c.fingerprint,
        c.pubkey == me ==> listed_name(c, me) == "YO (you)"@,
        c.pubkey != me && c.nickname.len() > 0 ==> listed_name(c, me) == c.nickname,
        c.pubkey != me && c.nickname.len() == 0 ==> listed_name(c, me) == c.fingerprint,
{
}

/// The preview of a conversation is the first 25 bytes of its last message, whoever sent it,
/// with a mark before them exactly if it was sent from here; without a message there is none.
pub proof fn preview_is_the_last_message(last: Map<Seq<char>, LastMessage>, id: Seq<char>)
    ensures
        !last.contains_key(id) ==> preview_of(last, id).len() == 0,
        last.contains_key(id) && !last[id].from_me ==> preview_of(last, id) == cut(
            last[id].text@,
            25,
        ),
        last.contains_key(id) && last[id].from_me ==> {
            &&& preview_of(last, id).len() >= 5
            &&& preview_of(last, id).take(5) == "You: "@
            &&& preview_of(last, id).skip(5) == cut(last[id].text@, 25)
        },
{
    reveal_strlit("You: ");
    if last.contains_key(id) {
        let text = cut(last[id].text@, 25);
        let mark = "You: "@;
        assert((mark + text).take(5) =~= mark);
        assert((mark + text).skip(5) =~= text);
        assert(Seq::<char>::empty() + text =~= text);
    }
}

/// Each conversation is with a contact that is not blocked, and each such contact has one, in
/// the order of the contacts. Its line has the identifier and the name of the contact, says
/// whether it is online and how much is unread, and when the last message came, and begins the
/// text of that message. The answer holds the position of the contact of each line.
pub proof fn conversations_are_those_of_the_contacts(
    contacts: Seq<ContactData>,
    blocked: Seq<Seq<char>>,
    me: Seq<u8>,
    m: MessagesData,
    last: Map<Seq<char>, LastMessage>,
) -> (src: Seq<int>)
    ensures
        picks(src, contacts.len() as int),
        src.len() == conversations(contacts, blocked, me, m, last).len(),
        forall|i: int|
            0 <= i < src.len() ==> {
                let c = contacts[#[trigger] src[i]];
                let line = conversations(contacts, blocked, me, m, last)[i];
                let id = c.contact_id;
                &&& !blocked.contains(hex(c.pubkey))
                &&& line.contact_id == id
                &&& c.pubkey == me ==> line.name == "YO (you)"@
                &&& c.pubkey != me && c.nickname.len() > 0 ==> line.name == c.nickname
                &&& c.pubkey != me && c.nickname.len() == 0 ==> line.name == c.fingerprint
                &&& line.online <==> m.online.contains_key(id) && m.online[id]
                &&& m.unread.contains_key(id) ==> line.unread == m.unread[id]
                &&& !m.unread.contains_key(id) ==> line.unread == 0
                &&& !last.contains_key(id) ==> line.last == 0 && line.preview.len() == 0
                &&& last.contains_key(id) ==> line.last == last[id].timestamp
                &&& last.contains_key(id) && !last[id].from_me ==> line.preview == cut(
                    last[id].text@,
                    25,
                )
                &&& last.contains_key(id) && last[id].from_me ==> line.preview == "You: "@ + cut(
                    last[id].text@,
                    25,
                )
            },
        forall|k: int|
            0 <= k < contacts.len() && !blocked.contains(hex((#[trigger] contacts[k]).pubkey))
                ==> src.contains(k),
    decreases contacts.len(),
{
    if contacts.len() == 0 {
        seq![]
    } else {
        let n = contacts.len() - 1;
        let head = contacts.drop_last();
        let src = conversations_are_those_of_the_contacts(head, blocked, me, m, last);
        assert forall|k: int| 0 <= k < n implies #[trigger] contacts[k] == head[k] by {
        }
        let c = contacts.last();
        preview_is_the_last_message(last, c.contact_id);
        if !blocked.contains(hex(c.pubkey)) {
            picks_one_more(src, n);
            src.push(n)
        } else {
            src
        }
    }
}

/// In the list of conversations, oneself comes before the others, those who are online come
/// before those who are not, and among these a later message before an earlier one. Every
/// line is there as often as it was.
pub proof fn conversations_are_in_order(lines: Seq<Conversation>, listed: Seq<Conversation>)
    requires
        stable_sort_of(lines, listed),
    ensures
        listed.to_multiset() == lines.to_multiset(),
        forall|i: int, j: int|
            0 <= i < j < listed.len() ==> {
                let a = #[trigger] listed[i];
                let b = #[trigger] listed[j];
                &&& b.name@ == "YO (you)"@ ==> a.name@ == "YO (you)"@
                &&& (a.name@ == "YO (you)"@) == (b.name@ == "YO (you)"@) && b.online ==> a.online
                &&& (a.name@ == "YO (you)"@) == (b.name@ == "YO (you)"@) && a.online == b.online
                    ==> a.last >= b.last
            },
{
}

/// A search finds the contacts whose nickname or fingerprint holds it, both in lower case; an
/// empty search finds all.
pub proof fn searches_look_at_the_names(c: ContactData, search: Seq<char>)
    ensures
        found_by(c, seq![]),
        search.len() > 0 ==> (found_by(c, search) <==> contains_text(lowercase(c.nickname), search)
            || contains_text(lowercase(c.fingerprint), search)),
{
}

/// A search lists the positions of the contacts that it finds, in rising order: those of
/// oneself, or those of the others.
pub proof fn searches_list_what_they_find(
    contacts: Seq<ContactData>,
    me: Seq<u8>,
    search: Seq<char>,
    oneself: bool,
)
    requires
        contacts.len() <= usize::MAX,
    ensures
        ({
            let out = found_among(contacts, me, search, oneself);
            &&& forall|i: int|
                0 <= i < out.len() ==> {
                    &&& (#[trigger] out[i]) < contacts.len()
                    &&& (contacts[out[i] as int].pubkey == me) == oneself
                    &&& found_by(contacts[out[i] as int], search)
                }
            &&& forall|i: int, j: int|
                0 <= i < j < out.len() ==> #[trigger] out[i] < #[trigger] out[j]
            &&& forall|k: int|
                0 <= k < contacts.len() && (#[trigger] contacts[k].pubkey == me) == oneself
                    && found_by(contacts[k], search) ==> out.contains(k as usize)
        }),
    decreases contacts.len(),
{
    if contacts.len() > 0 {
        let n = contacts.len() - 1;
        let head = contacts.drop_last();
        searches_list_what_they_find(head, me, search, oneself);
        let before = found_among(head, me, search, oneself);
        let out = found_among(contacts, me, search, oneself);
        assert forall|k: int|
            0 <= k < contacts.len() && (#[trigger] contacts[k].pubkey == me) == oneself && found_by(
                contacts[k],
                search,
            ) implies out.contains(k as usize) by {
            if k < n {
                assert(head[k].pubkey == contacts[k].pubkey);
                assert(head[k] == contacts[k]);
                assert(before.contains(k as usize));
                let i = before.index_of(k as usize);
                assert(out[i] == k as usize);
            } else {
                assert(out[out.len() - 1] == n as usize);
            }
        }
        assert forall|i: int| 0 <= i < out.len() implies {
            &&& (#[trigger] out[i]) < contacts.len()
            &&& (contacts[out[i] as int].pubkey == me) == oneself
            &&& found_by(contacts[out[i] as int], search)
        } by {
            if i < before.len() {
                assert(out[i] == before[i]);
                assert(contacts[before[i] as int] == head[before[i] as int]);
            }
        }
    }
}

/// Where the last message of a listed contact was sent by the peer, the line shows the first
/// 25 bytes of it; where it was sent from here, a mark and then these. Every line is that of
/// a contact that is not blocked, under its name, and every such contact has a line. The
/// answer holds the position of the contact of each line.
pub proof fn listed_lines_show_the_last_message(
    contacts: Seq<ContactData>,
    blocked: Seq<Seq<char>>,
    me: Seq<u8>,
    m: MessagesData,
    last: Map<Seq<char>, LastMessage>,
    lines: Seq<Conversation>,
    listed: Seq<Conversation>,
) -> (at: Seq<int>)
    requires
        stable_sort_of(lines, listed),
        views(lines) == conversations(contacts, blocked, me, m, last),
    ensures
        at.len() == listed.len(),
        forall|i: int|
            0 <= i < listed.len() ==> {
                let c = contacts[#[trigger] at[i]];
                let line = listed[i]@;
                let id = c.contact_id;
                &&& 0 <= at[i] < contacts.len()
                &&& !blocked.contains(hex(c.pubkey))
                &&& line.contact_id == id
                &&& c.pubkey == me ==> line.name == "YO (you)"@
                &&& c.pubkey != me && c.nickname.len() > 0 ==> line.name == c.nickname
                &&& c.pubkey != me && c.nickname.len() == 0 ==> line.name == c.fingerprint
                &&& line.online <==> m.online.contains_key(id) && m.online[id]
                &&& m.unread.contains_key(id) ==> line.unread == m.unread[id]
                &&& !m.unread.contains_key(id) ==> line.unread == 0
                &&& !last.contains_key(id) ==> line.last == 0 && line.preview.len() == 0
                &&& last.contains_key(id) ==> line.last == last[id].timestamp
                &&& last.contains_key(id) && !last[id].from_me ==> line.preview == cut(
                    last[id].text@,
                    25,
                )
                &&& last.contains_key(id) && last[id].from_me ==> line.preview == "You: "@ + cut(
                    last[id].text@,
                    25,
                )
            },
        forall|k: int|
            0 <= k < contacts.len() && !blocked.contains(hex((#[trigger] contacts[k]).pubkey))
                ==> exists|i: int|
                0 <= i < listed.len() && (#[trigger] listed[i]).contact_id@
                    == contacts[k].contact_id,
{
    broadcast use vstd::seq_lib::group_to_multiset_ensures;

    let src = conversations_are_those_of_the_contacts(contacts, blocked, me, m, last);
    let all = conversations(contacts, blocked, me, m, last);
    let at = Seq::new(listed.len(), |i: int| src[lines.index_of(listed[i])]);
    assert forall|i: int| 0 <= i < listed.len() implies {
        let j = lines.index_of(listed[i]);
        0 <= j < src.len() && #[trigger] at[i] == src[j] && all[j] == listed[i]@
    } by {
        assert(listed.contains(listed[i]));
        assert(lines.to_multiset().count(listed[i]) > 0);
        assert(lines.contains(listed[i]));
        let j = lines.index_of(listed[i]);
        assert(views(lines)[j] == listed[i]@);
    }
    assert forall|k: int|
        0 <= k < contacts.len() && !blocked.contains(
            hex((#[trigger] contacts[k]).pubkey),
        ) implies exists|i: int|
        0 <= i < listed.len() && (#[trigger] listed[i]).contact_id@ == contacts[k].contact_id by {
        assert(src.contains(k));
        let j = src.index_of(k);
        assert(src[j] == k);
        assert(views(lines)[j] == all[j]);
        assert(lines.contains(lines[j]));
        assert(listed.to_multiset().count(lines[j]) > 0);
        assert(listed.contains(lines[j]));
        let i = listed.index_of(lines[j]);
        assert(listed[i].contact_id@ == contacts[k].contact_id);
    }
    at
}

/// A contact without a message, or whose last message has no more than 25 bytes, always has a
/// preview.
pub proof fn short_messages_have_a_preview(last: Map<Seq<char>, LastMessage>, id: Seq<char>)
    ensures
        !last.contains_key(id) ==> previewable(last, id),
        last.contains_key(id) && encode_utf8(last[id].text@).len() <= 25 ==> previewable(last, id),
{
}

} // verus!
