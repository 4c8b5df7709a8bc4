//! Groups and their members.

use vstd::prelude::*;

use crate::channels::{
    by_id, differs, distinct_ids, ensure_text_channels, merge_all, merge_channels, merge_differs,
    migrations, purged, with_standing_text, Channel, ChannelData, Migration,
};
use crate::identity::{contact_id, derive_contact_id, same_key, Contact, ContactData, Identity};
use crate::network::{socket_address, socket_text};
use crate::order::{kept_in_order, picks, picks_one_more};
use crate::text::{copy, same, trim, trimmed, views};

verus! {

/// How the members of a group call reach each other.
#[derive(Clone, Copy, PartialEq, Eq, Structural)]
pub enum CallMode {
    Relay,
    P2P,
}

/// A member of a group.
pub struct GroupMember {
    pub pubkey: [u8; 32],
    pub nickname: String,
    pub fingerprint: String,
    pub sender_index: u16,
    pub address: String,
    pub port: String,
    pub is_admin: bool,
    pub joined_at: u64,
}

/// A member as mathematical data.
#[verifier::ext_equal]
pub struct MemberData {
    pub pubkey: Seq<u8>,
    pub nickname: Seq<char>,
    pub fingerprint: Seq<char>,
    pub sender_index: u16,
    pub address: Seq<char>,
    pub port: Seq<char>,
    pub is_admin: bool,
    pub joined_at: u64,
}

impl View for GroupMember {
    type V = MemberData;

    open spec fn view(&self) -> MemberData {
        MemberData {
            pubkey: self.pubkey@,
            nickname: self.nickname@,
            fingerprint: self.fingerprint@,
            sender_index: self.sender_index,
            address: self.address@,
            port: self.port@,
            is_admin: self.is_admin,
            joined_at: self.joined_at,
        }
    }
}

impl Clone for GroupMember {
    fn clone(&self) -> (r: Self)
        ensures
            r@ == self@,
    {
        GroupMember {
            pubkey: self.pubkey,
            nickname: copy(self.nickname.as_str()),
            fingerprint: copy(self.fingerprint.as_str()),
            sender_index: self.sender_index,
            address: copy(self.address.as_str()),
            port: copy(self.port.as_str()),
            is_admin: self.is_admin,
            joined_at: self.joined_at,
        }
    }
}

/// Copies a list of members.
pub fn copy_members(from: &Vec<GroupMember>) -> (r: Vec<GroupMember>)
    ensures
        views(r@) == views(from@),
{
    let mut out: Vec<GroupMember> = Vec::new();
    let mut i: usize = 0;
    while i < from.len()
        invariant
            i <= from@.len(),
            views(out@) == views(from@).take(i as int),
        decreases from@.len() - i,
    {
        let ghost before = out@;
        out.push(from[i].clone());
        i = i + 1;
        proof {
            assert(views(out@) =~= views(before).push(from@[i - 1]@));
            assert(views(from@).take(i as int) =~= views(from@).take(i - 1).push(from@[i - 1]@));
        }
    }
    assert(views(from@).take(i as int) =~= views(from@));
    out
}

/// A group.
pub struct Group {
    pub group_id: String,
    pub name: String,
    pub created_by: [u8; 32],
    pub created_at: String,
    pub members: Vec<GroupMember>,
    pub group_key: [u8; 32],
    pub next_sender_index: u16,
    pub avatar_sha256: Option<[u8; 32]>,
    pub text_channels: Vec<Channel>,
    pub voice_channels: Vec<Channel>,
    pub call_mode: CallMode,
    pub key_version: u32,
    pub previous_key: Option<[u8; 32]>,
}

/// A group as mathematical data.
#[verifier::ext_equal]
pub struct GroupData {
    pub group_id: Seq<char>,
    pub name: Seq<char>,
    pub created_by: Seq<u8>,
    pub created_at: Seq<char>,
    pub members: Seq<MemberData>,
    pub group_key: Seq<u8>,
    pub next_sender_index: u16,
    pub avatar_sha256: Option<Seq<u8>>,
    pub text_channels: Seq<ChannelData>,
    pub voice_channels: Seq<ChannelData>,
    pub call_mode: CallMode,
    pub key_version: u32,
    pub previous_key: Option<Seq<u8>>,
}

/// Bytes that may be absent, viewed.
pub open spec fn maybe_bytes(b: Option<[u8; 32]>) -> Option<Seq<u8>> {
    match b {
        Some(x) => Some(x@),
        None => None,
    }
}

impl View for Group {
    type V = GroupData;

    open spec fn view(&self) -> GroupData {
        GroupData {
            group_id: self.group_id@,
            name: self.name@,
            created_by: self.created_by@,
            created_at: self.created_at@,
            members: views(self.members@),
            group_key: self.group_key@,
            next_sender_index: self.next_sender_index,
            avatar_sha256: maybe_bytes(self.avatar_sha256),
            text_channels: views(self.text_channels@),
            voice_channels: views(self.voice_channels@),
            call_mode: self.call_mode,
            key_version: self.key_version,
            previous_key: maybe_bytes(self.previous_key),
        }
    }
}

/// Whether a key belongs to a member.
pub open spec fn is_member(members: Seq<MemberData>, key: Seq<u8>) -> bool {
    exists|i: int| 0 <= i < members.len() && (#[trigger] members[i]).pubkey == key
}

/// Whether a key belongs to an administrator.
pub open spec fn is_admin(members: Seq<MemberData>, key: Seq<u8>) -> bool {
    exists|i: int|
        0 <= i < members.len() && (#[trigger] members[i]).pubkey == key && members[i].is_admin
}

/// Decides whether a key belongs to a member.
pub fn has_member(members: &Vec<GroupMember>, key: &[u8; 32]) -> (r: bool)
    ensures
        r == is_member(views(members@), key@),
{
    let mut i: usize = 0;
    while i < members.len()
        invariant
            i <= members@.len(),
            forall|k: int| 0 <= k < i ==> (#[trigger] views(members@)[k]).pubkey != key@,
        decreases members@.len() - i,
    {
        if same_key(&members[i].pubkey, key) {
            assert(views(members@)[i as int].pubkey == key@);
            return true;
        }
        i = i + 1;
    }
    false
}

/// Decides whether a key belongs to an administrator.
pub fn has_admin(members: &Vec<GroupMember>, key: &[u8; 32]) -> (r: bool)
    ensures
        r == is_admin(views(members@), key@),
{
    let mut i: usize = 0;
    while i < members.len()
        invariant
            i <= members@.len(),
            forall|k: int|
                0 <= k < i ==> !((#[trigger] views(members@)[k]).pubkey == key@ && views(
                    members@,
                )[k].is_admin),
        decreases members@.len() - i,
    {
        if same_key(&members[i].pubkey, key) && members[i].is_admin {
            assert(views(members@)[i as int].pubkey == key@);
            return true;
        }
        i = i + 1;
    }
    false
}

/// The sender index of the first member with a key, or zero if there is none.
pub open spec fn index_of_sender(members: Seq<MemberData>, key: Seq<u8>) -> u16
    decreases members.len(),
{
    if members.len() == 0 {
        0
    } else if members[0].pubkey == key {
        members[0].sender_index
    } else {
        index_of_sender(members.drop_first(), key)
    }
}

/// The sender index of a key is that of the first member who has it.
pub proof fn index_of_sender_is(members: Seq<MemberData>, key: Seq<u8>, i: int)
    requires
        0 <= i <= members.len(),
        forall|k: int| 0 <= k < i ==> (#[trigger] members[k]).pubkey != key,
        i < members.len() ==> members[i].pubkey == key,
    ensures
        index_of_sender(members, key) == (if i < members.len() {
            members[i].sender_index
        } else {
            0
        }),
    decreases members.len(),
{
    if i > 0 {
        let t = members.drop_first();
        assert(members[0].pubkey != key);
        assert forall|k: int| 0 <= k < i - 1 implies (#[trigger] t[k]).pubkey != key by {
            assert(t[k] == members[k + 1]);
        }
        index_of_sender_is(t, key, i - 1);
    }
}

/// The sender index to use in a call of the group.
pub fn my_sender_index(members: &Vec<GroupMember>, key: &[u8; 32]) -> (r: u16)
    ensures
        r == index_of_sender(views(members@), key@),
{
    let mut i: usize = 0;
    while i < members.len()
        invariant
            i <= members@.len(),
            forall|k: int| 0 <= k < i ==> (#[trigger] views(members@)[k]).pubkey != key@,
        decreases members@.len() - i,
    {
        if same_key(&members[i].pubkey, key) {
            proof {
                index_of_sender_is(views(members@), key@, i as int);
            }
            return members[i].sender_index;
        }
        i = i + 1;
    }
    proof {
        index_of_sender_is(views(members@), key@, i as int);
    }
    0
}

/// The fingerprint of the first member with a sender index, or nothing.
pub open spec fn fingerprint_of(members: Seq<MemberData>, index: u16) -> Seq<char>
    decreases members.len(),
{
    if members.len() == 0 {
        seq![]
    } else if members[0].sender_index == index {
        members[0].fingerprint
    } else {
        fingerprint_of(members.drop_first(), index)
    }
}

/// The fingerprint for a sender index is that of the first member who has it.
pub proof fn fingerprint_of_is(members: Seq<MemberData>, index: u16, i: int)
    requires
        0 <= i <= members.len(),
        forall|k: int| 0 <= k < i ==> (#[trigger] members[k]).sender_index != index,
        i < members.len() ==> members[i].sender_index == index,
    ensures
        fingerprint_of(members, index) == (if i < members.len() {
            members[i].fingerprint
        } else {
            seq![]
        }),
    decreases members.len(),
{
    if i > 0 {
        let t = members.drop_first();
        assert(members[0].sender_index != index);
        assert forall|k: int| 0 <= k < i - 1 implies (#[trigger] t[k]).sender_index != index by {
            assert(t[k] == members[k + 1]);
        }
        fingerprint_of_is(t, index, i - 1);
    }
}

/// The fingerprint of the sender of a call message, taken from the roster that is known
/// here and not from the message.
pub fn sender_fingerprint(members: &Vec<GroupMember>, index: u16) -> (r: String)
    ensures
        r@ == fingerprint_of(views(members@), index),
{
    let mut i: usize = 0;
    while i < members.len()
        invariant
            i <= members@.len(),
            forall|k: int| 0 <= k < i ==> (#[trigger] views(members@)[k]).sender_index != index,
        decreases members@.len() - i,
    {
        if members[i].sender_index == index {
            proof {
                fingerprint_of_is(views(members@), index, i as int);
            }
            return copy(members[i].fingerprint.as_str());
        }
        i = i + 1;
    }
    proof {
        fingerprint_of_is(views(members@), index, i as int);
    }
    String::new()
}

/// Someone a message goes to: the shared identifier, the text of the address, the key.
pub struct Recipient {
    pub contact_id: String,
    pub address: String,
    pub pubkey: [u8; 32],
}

/// A recipient as mathematical data.
#[verifier::ext_equal]
pub struct RecipientData {
    pub contact_id: Seq<char>,
    pub address: Seq<char>,
    pub pubkey: Seq<u8>,
}

impl View for Recipient {
    type V = RecipientData;

    open spec fn view(&self) -> RecipientData {
        RecipientData {
            contact_id: self.contact_id@,
            address: self.address@,
            pubkey: self.pubkey@,
        }
    }
}

/// Whether an address is complete.
pub open spec fn reachable(ip: Seq<char>, port: Seq<char>) -> bool {
    ip.len() > 0 && port.len() > 0
}

/// The other members with a complete address, as recipients.
pub open spec fn other_members(members: Seq<MemberData>, me: Seq<u8>) -> Seq<RecipientData>
    decreases members.len(),
{
    if members.len() == 0 {
        seq![]
    } else {
        let m = members.last();
        let done = other_members(members.drop_last(), me);
        if m.pubkey != me && reachable(m.address, m.port) {
            done.push(
                RecipientData {
                    contact_id: contact_id(me, m.pubkey),
                    address: socket_text(m.address, m.port),
                    pubkey: m.pubkey,
                },
            )
        } else {
            done
        }
    }
}

/// The members that a change of the group is sent to.
pub fn group_member_contacts(members: &Vec<GroupMember>, me: &[u8; 32]) -> (r: Vec<Recipient>)
    ensures
        views(r@) == other_members(views(members@), me@),
{
    let ghost ms = views(members@);
    let mut out: Vec<Recipient> = Vec::new();
    let mut i: usize = 0;
    proof {
        assert(ms.take(0) =~= Seq::<MemberData>::empty());
        assert(views(out@) =~= Seq::<RecipientData>::empty());
    }
    while i < members.len()
        invariant
            i <= members@.len(),
            ms == views(members@),
            views(out@) == other_members(ms.take(i as int), me@),
        decreases members@.len() - i,
    {
        let ghost before = out@;
        let m = &members[i];
        if !same_key(&m.pubkey, me) && !m.address.as_str().is_empty() && !m.port.as_str().is_empty() {
            out.push(
                Recipient {
                    contact_id: derive_contact_id(me, &m.pubkey),
                    address: socket_address(m.address.as_str(), m.port.as_str()),
                    pubkey: m.pubkey,
                },
            );
            assert(views(out@) =~= views(before).push(out@.last()@));
        }
        proof {
            let now = ms.take(i + 1);
            assert(now.drop_last() =~= ms.take(i as int));
            assert(now.last() == members@[i as int]@);
        }
        i = i + 1;
    }
    assert(ms.take(i as int) =~= ms);
    out
}

/// No message is sent to oneself: every recipient is another member.
pub proof fn recipients_are_others(members: Seq<MemberData>, me: Seq<u8>, i: int)
    requires
        0 <= i < other_members(members, me).len(),
    ensures
        other_members(members, me)[i].pubkey != me,
        is_member(members, other_members(members, me)[i].pubkey),
    decreases members.len(),
{
    let head = members.drop_last();
    if i < other_members(head, me).len() {
        recipients_are_others(head, me, i);
        let k = choose|k: int|
            0 <= k < head.len() && (#[trigger] head[k]).pubkey == other_members(head, me)[i].pubkey;
        assert(members[k].pubkey == other_members(members, me)[i].pubkey);
    } else {
        assert(members[members.len() - 1].pubkey == other_members(members, me)[i].pubkey);
    }
}

/// The address of the first contact with an identifier, if there is one.
pub open spec fn live_address(contacts: Seq<ContactData>, id: Seq<char>) -> Option<(
    Seq<char>,
    Seq<char>,
)>
    decreases contacts.len(),
{
    if contacts.len() == 0 {
        None
    } else if contacts[0].contact_id == id {
        Some((contacts[0].last_address, contacts[0].last_port))
    } else {
        live_address(contacts.drop_first(), id)
    }
}

/// The address for an identifier is that of the first contact who has it.
pub proof fn live_address_is(contacts: Seq<ContactData>, id: Seq<char>, i: int)
    requires
        0 <= i <= contacts.len(),
        forall|k: int| 0 <= k < i ==> (#[trigger] contacts[k]).contact_id != id,
        i < contacts.len() ==> contacts[i].contact_id == id,
    ensures
        live_address(contacts, id) == (if i < contacts.len() {
            Some((contacts[i].last_address, contacts[i].last_port))
        } else {
            None
        }),
    decreases contacts.len(),
{
    if i > 0 {
        let t = contacts.drop_first();
        assert(contacts[0].contact_id != id);
        assert forall|k: int| 0 <= k < i - 1 implies (#[trigger] t[k]).contact_id != id by {
            assert(t[k] == contacts[k + 1]);
        }
        live_address_is(t, id, i - 1);
    }
}

/// The position of the first contact with an identifier, or the number of contacts.
pub fn find_contact(contacts: &Vec<Contact>, id: &str) -> (r: usize)
    ensures
        r <= contacts@.len(),
        forall|k: int| 0 <= k < r ==> (#[trigger] views(contacts@)[k]).contact_id != id@,
        r < contacts@.len() ==> views(contacts@)[r as int].contact_id == id@,
{
    let mut i: usize = 0;
    while i < contacts.len()
        invariant
            i <= contacts@.len(),
            forall|k: int| 0 <= k < i ==> (#[trigger] views(contacts@)[k]).contact_id != id@,
        decreases contacts@.len() - i,
    {
        if same(contacts[i].contact_id.as_str(), id) {
            return i;
        }
        i = i + 1;
    }
    i
}

/// Where a group message goes for one member: to the address its contact has now, or
/// to the one in the group where it is no contact.
pub open spec fn chat_address(m: MemberData, contacts: Seq<ContactData>, me: Seq<u8>) -> (
    Seq<char>,
    Seq<char>,
) {
    match live_address(contacts, contact_id(me, m.pubkey)) {
        Some(a) => a,
        None => (m.address, m.port),
    }
}

/// The recipients of a group message.
pub open spec fn chat_recipients(
    members: Seq<MemberData>,
    contacts: Seq<ContactData>,
    me: Seq<u8>,
) -> Seq<RecipientData>
    decreases members.len(),
{
    if members.len() == 0 {
        seq![]
    } else {
        let m = members.last();
        let done = chat_recipients(members.drop_last(), contacts, me);
        let a = chat_address(m, contacts, me);
        if m.pubkey != me && reachable(a.0, a.1) {
            done.push(
                RecipientData {
                    contact_id: contact_id(me, m.pubkey),
                    address: socket_text(a.0, a.1),
                    pubkey: m.pubkey,
                },
            )
        } else {
            done
        }
    }
}

/// The members that a group message is sent to.
pub fn group_chat_recipients(
    members: &Vec<GroupMember>,
    contacts: &Vec<Contact>,
    me: &[u8; 32],
) -> (r: Vec<Recipient>)
    ensures
        views(r@) == chat_recipients(views(members@), views(contacts@), me@),
{
    let ghost ms = views(members@);
    let ghost cs = views(contacts@);
    let mut out: Vec<Recipient> = Vec::new();
    let mut i: usize = 0;
    proof {
        assert(ms.take(0) =~= Seq::<MemberData>::empty());
        assert(views(out@) =~= Seq::<RecipientData>::empty());
    }
    while i < members.len()
        invariant
            i <= members@.len(),
            ms == views(members@),
            cs == views(contacts@),
            views(out@) == chat_recipients(ms.take(i as int), cs, me@),
        decreases members@.len() - i,
    {
        let ghost before = out@;
        let m = &members[i];
        if !same_key(&m.pubkey, me) {
            let cid = derive_contact_id(me, &m.pubkey);
            let at: usize = find_contact(contacts, cid.as_str());
            proof {
                live_address_is(cs, cid@, at as int);
            }
            let (ip, port) = if at < contacts.len() {
                (contacts[at].last_address.as_str(), contacts[at].last_port.as_str())
            } else {
                (m.address.as_str(), m.port.as_str())
            };
            if !ip.is_empty() && !port.is_empty() {
                let address = socket_address(ip, port);
                out.push(Recipient { contact_id: cid, address, pubkey: m.pubkey });
                assert(views(out@) =~= views(before).push(out@.last()@));
            }
        }
        proof {
            let now = ms.take(i + 1);
            assert(now.drop_last() =~= ms.take(i as int));
            assert(now.last() == members@[i as int]@);
        }
        i = i + 1;
    }
    assert(ms.take(i as int) =~= ms);
    out
}

/// Whether a contact is ticked.
pub open spec fn ticked(selected: Seq<bool>, i: int) -> bool {
    0 <= i < selected.len() && selected[i]
}

/// A contact as a new member.
pub open spec fn as_member(c: ContactData, sender_index: u16, joined_at: u64) -> MemberData {
    MemberData {
        pubkey: c.pubkey,
        nickname: c.nickname,
        fingerprint: c.fingerprint,
        sender_index,
        address: c.last_address,
        port: c.last_port,
        is_admin: false,
        joined_at,
    }
}

/// The contacts that become members, and the sender indices they get, counted from
/// `first` on: those ticked whose key is none of `taken`.
pub open spec fn recruits(
    contacts: Seq<ContactData>,
    selected: Seq<bool>,
    taken: Seq<MemberData>,
    first: int,
    joined_at: u64,
) -> Seq<MemberData>
    decreases contacts.len(),
{
    if contacts.len() == 0 {
        seq![]
    } else {
        let i = contacts.len() - 1;
        let done = recruits(contacts.drop_last(), selected, taken, first, joined_at);
        if ticked(selected, i) && !is_member(taken, contacts.last().pubkey) {
            done.push(as_member(contacts.last(), (first + done.len()) as u16, joined_at))
        } else {
            done
        }
    }
}

proof fn recruits_len(
    contacts: Seq<ContactData>,
    selected: Seq<bool>,
    taken: Seq<MemberData>,
    first: int,
    joined_at: u64,
    i: int,
)
    requires
        0 <= i <= contacts.len(),
    ensures
        recruits(contacts.take(i), selected, taken, first, joined_at).len() <= i,
        recruits(contacts.take(i), selected, taken, first, joined_at).len() <= recruits(
            contacts,
            selected,
            taken,
            first,
            joined_at,
        ).len(),
    decreases contacts.len(),
{
    if contacts.len() > 0 {
        let head = contacts.drop_last();
        if i < contacts.len() {
            recruits_len(head, selected, taken, first, joined_at, i);
            assert(head.take(i) =~= contacts.take(i));
        } else {
            recruits_len(head, selected, taken, first, joined_at, head.len() as int);
            assert(head.take(head.len() as int) =~= head);
            assert(contacts.take(i) =~= contacts);
        }
    } else {
        assert(contacts.take(i) =~= contacts);
    }
}

fn recruit(
    contacts: &Vec<Contact>,
    selected: &Vec<bool>,
    taken: &Vec<GroupMember>,
    first: u16,
    joined_at: u64,
) -> (r: Vec<GroupMember>)
    requires
        first + recruits(
            views(contacts@),
            selected@,
            views(taken@),
            first as int,
            joined_at,
        ).len() <= u16::MAX,
    ensures
        views(r@) == recruits(
            views(contacts@),
            selected@,
            views(taken@),
            first as int,
            joined_at,
        ),
{
    let ghost cs = views(contacts@);
    let ghost all = recruits(cs, selected@, views(taken@), first as int, joined_at);
    let mut out: Vec<GroupMember> = Vec::new();
    let mut next: u16 = first;
    let mut i: usize = 0;
    proof {
        assert(cs.take(0) =~= Seq::<ContactData>::empty());
        assert(views(out@) =~= Seq::<MemberData>::empty());
    }
    while i < contacts.len()
        invariant
            i <= contacts@.len(),
            cs == views(contacts@),
            all == recruits(cs, selected@, views(taken@), first as int, joined_at),
            first + all.len() <= u16::MAX,
            views(out@) == recruits(
                cs.take(i as int),
                selected@,
                views(taken@),
                first as int,
                joined_at,
            ),
            next == first + out@.len(),
        decreases contacts@.len() - i,
    {
        let ghost before = out@;
        let ghost now = cs.take(i + 1);
        proof {
            assert(now.drop_last() =~= cs.take(i as int));
            assert(now.last() == contacts@[i as int]@);
            recruits_len(cs, selected@, views(taken@), first as int, joined_at, i + 1);
        }
        let c = &contacts[i];
        if i < selected.len() && selected[i] && !has_member(taken, &c.pubkey) {
            out.push(
                GroupMember {
                    pubkey: c.pubkey,
                    nickname: copy(c.nickname.as_str()),
                    fingerprint: copy(c.fingerprint.as_str()),
                    sender_index: next,
                    address: copy(c.last_address.as_str()),
                    port: copy(c.last_port.as_str()),
                    is_admin: false,
                    joined_at,
                },
            );
            proof {
                assert(views(out@) =~= views(before).push(out@.last()@));
                assert(views(out@) == recruits(
                    now,
                    selected@,
                    views(taken@),
                    first as int,
                    joined_at,
                ));
                assert(views(out@).len() == out@.len());
            }
            next = next + 1;
        }
        i = i + 1;
    }
    assert(cs.take(i as int) =~= cs);
    out
}

/// Every recruit gets the next free sender index, in the order of the contacts, and is
/// no administrator.
pub proof fn recruits_are_numbered(
    contacts: Seq<ContactData>,
    selected: Seq<bool>,
    taken: Seq<MemberData>,
    first: int,
    joined_at: u64,
    i: int,
)
    requires
        0 <= first,
        0 <= i < recruits(contacts, selected, taken, first, joined_at).len(),
        first + recruits(contacts, selected, taken, first, joined_at).len() <= u16::MAX,
    ensures
        recruits(contacts, selected, taken, first, joined_at)[i].sender_index == first + i,
        !recruits(contacts, selected, taken, first, joined_at)[i].is_admin,
        !is_member(taken, recruits(contacts, selected, taken, first, joined_at)[i].pubkey),
    decreases contacts.len(),
{
    let head = contacts.drop_last();
    let done = recruits(head, selected, taken, first, joined_at);
    if i < done.len() {
        recruits_are_numbered(head, selected, taken, first, joined_at, i);
    }
}

/// Sender indices are handed out once: each is below the next one to give, and no two
/// members share one.
pub open spec fn indices_valid(members: Seq<MemberData>, next: int) -> bool {
    &&& forall|i: int|
        0 <= i < members.len() ==> (#[trigger] members[i]).sender_index < next
    &&& forall|i: int, j: int|
        0 <= i < j < members.len() ==> (#[trigger] members[i]).sender_index != (
        #[trigger] members[j]).sender_index
}

/// The member that founds a group.
pub open spec fn founder(
    key: Seq<u8>,
    nickname: Seq<char>,
    fingerprint: Seq<char>,
    address: Seq<char>,
    port: Seq<char>,
) -> MemberData {
    MemberData {
        pubkey: key,
        nickname,
        fingerprint,
        sender_index: 0,
        address,
        port,
        is_admin: true,
        joined_at: 0,
    }
}

/// What the caller supplies for a new group: what is drawn at random or read off the
/// clock, and the call mode to start with.
pub struct NewGroup {
    pub group_id: String,
    pub group_key: [u8; 32],
    pub created_at: String,
    pub joined_at: u64,
    pub call_mode: CallMode,
}

/// Whether a group can be created: it has a name, and someone besides the founder.
pub open spec fn creatable(name: Seq<char>, selected: Seq<bool>) -> bool {
    trimmed(name).len() > 0 && selected.contains(true)
}

/// Decides whether a group can be created.
pub fn can_create(name: &str, selected: &Vec<bool>) -> (r: bool)
    ensures
        r == creatable(name@, selected@),
{
    let t = trim(name);
    if t.as_str().is_empty() {
        return false;
    }
    let mut i: usize = 0;
    while i < selected.len()
        invariant
            i <= selected@.len(),
            trimmed(name@).len() > 0,
            forall|k: int| 0 <= k < i ==> !selected@[k],
        decreases selected@.len() - i,
    {
        if selected[i] {
            assert(selected@[i as int]);
            return true;
        }
        i = i + 1;
    }
    false
}

/// The number of ticks.
pub open spec fn tick_count(selected: Seq<bool>) -> int
    decreases selected.len(),
{
    if selected.len() == 0 {
        0
    } else {
        tick_count(selected.drop_last()) + if selected.last() {
            1int
        } else {
            0
        }
    }
}

/// Counts the members of the group to be created, the founder included.
pub fn founding_member_count(selected: &Vec<bool>) -> (r: u64)
    requires
        selected@.len() < u64::MAX,
    ensures
        r == tick_count(selected@) + 1,
{
    let mut n: u64 = 0;
    let mut i: usize = 0;
    assert(selected@.take(0) =~= Seq::<bool>::empty());
    while i < selected.len()
        invariant
            i <= selected@.len(),
            n <= i,
            selected@.len() < u64::MAX,
            n == tick_count(selected@.take(i as int)),
        decreases selected@.len() - i,
    {
        if selected[i] {
            n = n + 1;
        }
        i = i + 1;
        proof {
            let now = selected@.take(i as int);
            assert(now.drop_last() =~= selected@.take(i - 1));
            assert(now.last() == selected@[i - 1]);
        }
    }
    assert(selected@.take(i as int) =~= selected@);
    n + 1
}

/// The members a new group starts with: the founder, then the ticked contacts.
pub open spec fn founding_members(
    me: MemberData,
    contacts: Seq<ContactData>,
    selected: Seq<bool>,
    joined_at: u64,
) -> Seq<MemberData> {
    seq![me] + recruits(contacts, selected, seq![], 1, joined_at)
}

/// Creates a group of oneself and the ticked contacts. Its channels are still to be made.
pub fn create_group(
    me: &Identity,
    nickname: &str,
    address: &str,
    port: &str,
    contacts: &Vec<Contact>,
    selected: &Vec<bool>,
    name: &str,
    new: NewGroup,
) -> (r: Group)
    requires
        1 + recruits(views(contacts@), selected@, seq![], 1, new.joined_at).len() <= u16::MAX,
    ensures
        r@ == (GroupData {
            group_id: new.group_id@,
            name: trimmed(name@),
            created_by: me.pubkey@,
            created_at: new.created_at@,
            members: founding_members(
                founder(me.pubkey@, nickname@, me.fingerprint@, address@, port@),
                views(contacts@),
                selected@,
                new.joined_at,
            ),
            group_key: new.group_key@,
            next_sender_index: (1 + recruits(
                views(contacts@),
                selected@,
                seq![],
                1,
                new.joined_at,
            ).len()) as u16,
            avatar_sha256: None,
            text_channels: seq![],
            voice_channels: seq![],
            call_mode: new.call_mode,
            key_version: 0,
            previous_key: None,
        }),
{
    let nobody: Vec<GroupMember> = Vec::new();
    assert(views(nobody@) =~= Seq::<MemberData>::empty());
    let mut others = recruit(contacts, selected, &nobody, 1, new.joined_at);
    let ghost others_data = views(others@);
    let next: u16 = 1 + others.len() as u16;
    let mut members: Vec<GroupMember> = Vec::new();
    members.push(
        GroupMember {
            pubkey: me.pubkey,
            nickname: copy(nickname),
            fingerprint: copy(me.fingerprint.as_str()),
            sender_index: 0,
            address: copy(address),
            port: copy(port),
            is_admin: true,
            joined_at: 0,
        },
    );
    members.append(&mut others);
    let text_channels: Vec<Channel> = Vec::new();
    let voice_channels: Vec<Channel> = Vec::new();
    proof {
        assert(views(members@) =~= seq![
            founder(me.pubkey@, nickname@, me.fingerprint@, address@, port@),
        ] + others_data);
        assert(views(text_channels@) =~= Seq::<ChannelData>::empty());
        assert(views(voice_channels@) =~= Seq::<ChannelData>::empty());
    }
    Group {
        group_id: new.group_id,
        name: trim(name),
        created_by: me.pubkey,
        created_at: new.created_at,
        members,
        group_key: new.group_key,
        next_sender_index: next,
        avatar_sha256: None,
        text_channels,
        voice_channels,
        call_mode: new.call_mode,
        key_version: 0,
        previous_key: None,
    }
}

/// A new group has its founder as the administrator, and numbers its members without
/// repeats below the next index to give.
pub proof fn new_group_is_valid(
    me: MemberData,
    contacts: Seq<ContactData>,
    selected: Seq<bool>,
    joined_at: u64,
)
    requires
        me.sender_index == 0,
        me.is_admin,
        1 + recruits(contacts, selected, seq![], 1, joined_at).len() <= u16::MAX,
    ensures
        is_admin(founding_members(me, contacts, selected, joined_at), me.pubkey),
        indices_valid(
            founding_members(me, contacts, selected, joined_at),
            founding_members(me, contacts, selected, joined_at).len() as int,
        ),
{
    let members = founding_members(me, contacts, selected, joined_at);
    let others = recruits(contacts, selected, seq![], 1, joined_at);
    assert(members[0] == me);
    assert forall|i: int| 0 <= i < members.len() implies (#[trigger] members[i]).sender_index == i by {
        if i > 0 {
            assert(members[i] == others[i - 1]);
            recruits_are_numbered(contacts, selected, seq![], 1, joined_at, i - 1);
        }
    }
}

/// The group after ticked contacts were invited.
pub open spec fn with_invited(
    g: GroupData,
    contacts: Seq<ContactData>,
    selected: Seq<bool>,
    joined_at: u64,
) -> GroupData {
    let added = recruits(contacts, selected, g.members, g.next_sender_index as int, joined_at);
    GroupData {
        members: g.members + added,
        next_sender_index: (g.next_sender_index + added.len()) as u16,
        ..g
    }
}

/// Adds the ticked contacts that are no members yet to a group. The answer is how many
/// were added; they stand at the end of the members.
pub fn invite_members(
    group: &mut Group,
    contacts: &Vec<Contact>,
    selected: &Vec<bool>,
    joined_at: u64,
) -> (r: usize)
    requires
        old(group)@.next_sender_index + recruits(
            views(contacts@),
            selected@,
            old(group)@.members,
            old(group)@.next_sender_index as int,
            joined_at,
        ).len() <= u16::MAX,
    ensures
        final(group)@ == with_invited(old(group)@, views(contacts@), selected@, joined_at),
        r == recruits(
            views(contacts@),
            selected@,
            old(group)@.members,
            old(group)@.next_sender_index as int,
            joined_at,
        ).len(),
{
    let ghost start = group@;
    let ghost start_members = group.members@;
    let mut added = recruit(contacts, selected, &group.members, group.next_sender_index, joined_at);
    let ghost added_data = views(added@);
    let n: usize = added.len();
    group.next_sender_index = group.next_sender_index + n as u16;
    group.members.append(&mut added);
    assert(views(group.members@) =~= views(start_members) + added_data);
    n
}

/// An invitation keeps the sender indices valid and every member as it was.
pub proof fn inviting_keeps_indices_valid(
    g: GroupData,
    contacts: Seq<ContactData>,
    selected: Seq<bool>,
    joined_at: u64,
)
    requires
        indices_valid(g.members, g.next_sender_index as int),
        g.next_sender_index + recruits(
            contacts,
            selected,
            g.members,
            g.next_sender_index as int,
            joined_at,
        ).len() <= u16::MAX,
    ensures
        indices_valid(
            with_invited(g, contacts, selected, joined_at).members,
            with_invited(g, contacts, selected, joined_at).next_sender_index as int,
        ),
        with_invited(g, contacts, selected, joined_at).members.take(g.members.len() as int)
            == g.members,
{
    let first = g.next_sender_index as int;
    let added = recruits(contacts, selected, g.members, first, joined_at);
    let all = g.members + added;
    assert(all.take(g.members.len() as int) =~= g.members);
    assert forall|i: int| g.members.len() <= i < all.len() implies (#[trigger] all[i]).sender_index
        == first + i - g.members.len() by {
        assert(all[i] == added[i - g.members.len()]);
        recruits_are_numbered(
            contacts,
            selected,
            g.members,
            first,
            joined_at,
            i - g.members.len(),
        );
    }
    assert forall|i: int| 0 <= i < g.members.len() implies #[trigger] all[i] == g.members[i] by {
    }
    assert forall|i: int, j: int| 0 <= i < j < all.len() implies (#[trigger] all[i]).sender_index
        != (#[trigger] all[j]).sender_index by {
        if j < g.members.len() {
            assert(all[i] == g.members[i] && all[j] == g.members[j]);
        } else if i < g.members.len() {
            assert(all[i] == g.members[i]);
        }
    }
}

/// Makes a member an administrator, or takes that away. An index out of range changes
/// nothing. The answer says whether the group is to be saved and sent out.
pub fn set_admin(group: &mut Group, member: usize, admin: bool) -> (r: bool)
    ensures
        r == (member < old(group)@.members.len()),
        final(group)@ == (if member < old(group)@.members.len() {
            GroupData {
                members: old(group)@.members.update(
                    member as int,
                    MemberData { is_admin: admin, ..old(group)@.members[member as int] },
                ),
                ..old(group)@
            }
        } else {
            old(group)@
        }),
{
    if member < group.members.len() {
        let ghost before = views(group.members@);
        let mut m = group.members[member].clone();
        m.is_admin = admin;
        group.members.set(member, m);
        assert(views(group.members@) =~= before.update(
            member as int,
            MemberData { is_admin: admin, ..before[member as int] },
        ));
        true
    } else {
        false
    }
}

/// Whether the rename button does something: the name is new and not blank.
pub fn can_rename(group: &Group, typed: &str) -> (r: bool)
    ensures
        r == (trimmed(typed@) != group@.name && trimmed(typed@).len() > 0),
{
    let t = trim(typed);
    !same(t.as_str(), group.name.as_str()) && !t.as_str().is_empty()
}

/// Gives a group the name that was typed.
pub fn rename_group(group: &mut Group, typed: &str)
    ensures
        final(group)@ == (GroupData { name: trimmed(typed@), ..old(group)@ }),
{
    group.name = trim(typed);
}

/// Adds a member that another member announced, unless it is known. The answer says
/// whether the group is to be saved.
pub fn sync_member(group: &mut Group, member: GroupMember) -> (r: bool)
    ensures
        r == !is_member(old(group)@.members, member@.pubkey),
        final(group)@ == (if is_member(old(group)@.members, member@.pubkey) {
            old(group)@
        } else {
            GroupData { members: old(group)@.members.push(member@), ..old(group)@ }
        }),
{
    if has_member(&group.members, &member.pubkey) {
        false
    } else {
        let ghost before = group.members@;
        let ghost md = member@;
        group.members.push(member);
        assert(views(group.members@) =~= views(before).push(md));
        true
    }
}

/// Having another key, as a predicate.
pub open spec fn other_than(key: Seq<u8>) -> spec_fn(MemberData) -> bool {
    |m: MemberData| m.pubkey != key
}

/// A group that a member left: it has a new key, and remembers the last one.
pub open spec fn departed(g: GroupData, key: Seq<u8>, new_key: Seq<u8>) -> GroupData {
    GroupData {
        members: g.members.filter(other_than(key)),
        previous_key: Some(g.group_key),
        group_key: new_key,
        key_version: (g.key_version + 1) as u32,
        ..g
    }
}

/// Removes a member from a group, and changes the key of the group, so that the member cannot
/// read on.
pub fn remove_member(group: &mut Group, key: &[u8; 32], new_key: [u8; 32])
    requires
        old(group)@.key_version < u32::MAX,
    ensures
        final(group)@ == departed(old(group)@, key@, new_key@),
{
    let ghost all = views(group.members@);
    let ghost p = other_than(key@);
    let mut kept: Vec<GroupMember> = Vec::new();
    let mut i: usize = 0;
    proof {
        reveal(Seq::filter);
        assert(all.take(0) =~= Seq::<MemberData>::empty());
        assert(views(kept@) =~= Seq::<MemberData>::empty());
    }
    while i < group.members.len()
        invariant
            i <= group.members@.len(),
            all == views(group.members@),
            p == other_than(key@),
            views(kept@) == all.take(i as int).filter(p),
        decreases group.members@.len() - i,
    {
        let ghost before = kept@;
        let m = &group.members[i];
        let gone = same_key(&m.pubkey, key);
        assert(gone == !p(m@));
        if !gone {
            kept.push(m.clone());
        }
        proof {
            reveal(Seq::filter);
            let now = all.take(i + 1);
            assert(now.drop_last() =~= all.take(i as int));
            assert(now.last() == m@);
            if !gone {
                assert(views(kept@) =~= views(before).push(m@));
            }
        }
        i = i + 1;
    }
    assert(all.take(i as int) =~= all);
    group.members = kept;
    group.previous_key = Some(group.group_key);
    group.group_key = new_key;
    group.key_version = group.key_version + 1;
}

/// Who left a group is no member of it, and the others still are.
pub proof fn removing_takes_effect(
    g: GroupData,
    key: Seq<u8>,
    new_key: Seq<u8>,
    other: Seq<u8>,
)
    requires
        other != key,
    ensures
        !is_member(departed(g, key, new_key).members, key),
        is_member(departed(g, key, new_key).members, other) == is_member(g.members, other),
{
    let p = other_than(key);
    let kept = g.members.filter(p);
    assert forall|i: int| 0 <= i < kept.len() implies (#[trigger] kept[i]).pubkey != key
        && g.members.contains(kept[i]) by {
        g.members.lemma_filter_pred(p, i);
        assert(kept.contains(kept[i]));
        g.members.lemma_filter_contains_rev(p, kept[i]);
    }
    if is_member(g.members, other) {
        let i = choose|i: int|
            0 <= i < g.members.len() && (#[trigger] g.members[i]).pubkey == other;
        assert(p(g.members[i]));
        g.members.lemma_filter_contains(p, i);
        let k = kept.index_of(g.members[i]);
        assert(kept[k].pubkey == other);
    }
    if is_member(kept, other) {
        let i = choose|i: int| 0 <= i < kept.len() && (#[trigger] kept[i]).pubkey == other;
        let k = g.members.index_of(kept[i]);
        assert(g.members[k].pubkey == other);
    }
}

/// What a received copy makes of a group, before the standing channels are seen to.
pub open spec fn updated(
    g: GroupData,
    received: GroupData,
    text_channels: Seq<ChannelData>,
) -> GroupData {
    GroupData {
        name: received.name,
        members: received.members,
        avatar_sha256: received.avatar_sha256,
        text_channels,
        ..g
    }
}

/// Takes over a received copy of a group: its name, members and avatar as they came,
/// its text channels merged with those known here, and the standing channels where they
/// are missing. The answer holds the channels whose messages are to be moved, and
/// whether the merged group is to be sent out: an administrator does so where it differs
/// from what came.
pub fn apply_update(
    group: &mut Group,
    received: &Group,
    me: &[u8; 32],
    now: u64,
) -> (r: (Vec<Migration>, bool))
    ensures
        exists|merged: Seq<ChannelData>| #[trigger]
            distinct_ids(merged) && by_id(merged) == purged(
                merge_all(by_id(old(group)@.text_channels), received@.text_channels),
                now,
            ) && final(group)@ == updated(
                old(group)@,
                received@,
                with_standing_text(merged, old(group)@.created_by, now),
            ),
        final(group)@.members == received@.members,
        final(group)@.name == received@.name,
        final(group)@.avatar_sha256 == received@.avatar_sha256,
        views(r.0@) == migrations(by_id(old(group)@.text_channels), received@.text_channels),
        r.1 == (is_admin(received@.members, me@) && differs(
            final(group)@.text_channels,
            received@.text_channels,
        )),
{
    let (merged, moved) = merge_channels(&group.text_channels, &received.text_channels, now);
    let ghost m = views(merged@);
    group.name = copy(received.name.as_str());
    group.members = copy_members(&received.members);
    group.avatar_sha256 = received.avatar_sha256;
    group.text_channels = merged;
    ensure_text_channels(&mut group.text_channels, &group.created_by, now);
    let differ = merge_differs(&group.text_channels, &received.text_channels);
    let admin = has_admin(&group.members, me);
    assert(distinct_ids(m));
    (moved, admin && differ)
}

/// An invitation to a group: who it goes to, and the sender index that it gives.
pub struct Invite {
    pub to: Recipient,
    pub your_sender_index: u16,
}

/// An invitation as mathematical data.
#[verifier::ext_equal]
pub struct InviteData {
    pub to: RecipientData,
    pub your_sender_index: u16,
}

impl View for Invite {
    type V = InviteData;

    open spec fn view(&self) -> InviteData {
        InviteData { to: self.to@, your_sender_index: self.your_sender_index }
    }
}

/// The position of the first contact with a key, or the number of contacts.
pub open spec fn contact_with_key(contacts: Seq<ContactData>, key: Seq<u8>) -> int
    decreases contacts.len(),
{
    if contacts.len() == 0 || contacts[0].pubkey == key {
        0
    } else {
        1 + contact_with_key(contacts.drop_first(), key)
    }
}

/// The contact with a key is the first who has it.
pub proof fn contact_with_key_is(contacts: Seq<ContactData>, key: Seq<u8>, i: int)
    requires
        0 <= i <= contacts.len(),
        forall|k: int| 0 <= k < i ==> (#[trigger] contacts[k]).pubkey != key,
        i < contacts.len() ==> contacts[i].pubkey == key,
    ensures
        contact_with_key(contacts, key) == i,
    decreases contacts.len(),
{
    if i > 0 {
        let t = contacts.drop_first();
        assert(contacts[0].pubkey != key);
        assert forall|k: int| 0 <= k < i - 1 implies (#[trigger] t[k]).pubkey != key by {
            assert(t[k] == contacts[k + 1]);
        }
        contact_with_key_is(t, key, i - 1);
    }
}

/// The position of the first contact with a key.
pub fn find_by_key(contacts: &Vec<Contact>, key: &[u8; 32]) -> (r: usize)
    ensures
        r <= contacts@.len(),
        r == contact_with_key(views(contacts@), key@),
        r < contacts@.len() ==> contacts@[r as int].pubkey@ == key@,
{
    let mut i: usize = 0;
    while i < contacts.len()
        invariant
            i <= contacts@.len(),
            forall|k: int| 0 <= k < i ==> (#[trigger] views(contacts@)[k]).pubkey != key@,
        decreases contacts@.len() - i,
    {
        if same_key(&contacts[i].pubkey, key) {
            proof {
                contact_with_key_is(views(contacts@), key@, i as int);
            }
            return i;
        }
        i = i + 1;
    }
    proof {
        contact_with_key_is(views(contacts@), key@, i as int);
    }
    i
}

/// The invitations to a new group: each other member is invited through the first
/// contact with its key, if that has a complete address.
pub open spec fn founding_invites(
    members: Seq<MemberData>,
    contacts: Seq<ContactData>,
    me: Seq<u8>,
) -> Seq<InviteData>
    decreases members.len(),
{
    if members.len() == 0 {
        seq![]
    } else {
        let m = members.last();
        let done = founding_invites(members.drop_last(), contacts, me);
        let at = contact_with_key(contacts, m.pubkey);
        if m.pubkey != me && 0 <= at < contacts.len() && reachable(
            contacts[at].last_address,
            contacts[at].last_port,
        ) {
            done.push(
                InviteData {
                    to: RecipientData {
                        contact_id: contacts[at].contact_id,
                        address: socket_text(contacts[at].last_address, contacts[at].last_port),
                        pubkey: contacts[at].pubkey,
                    },
                    your_sender_index: m.sender_index,
                },
            )
        } else {
            done
        }
    }
}

/// Writes the invitations to a new group.
pub fn invites_to_new_group(
    members: &Vec<GroupMember>,
    contacts: &Vec<Contact>,
    me: &[u8; 32],
) -> (r: Vec<Invite>)
    ensures
        views(r@) == founding_invites(views(members@), views(contacts@), me@),
{
    let ghost ms = views(members@);
    let ghost cs = views(contacts@);
    let mut out: Vec<Invite> = Vec::new();
    let mut i: usize = 0;
    proof {
        assert(ms.take(0) =~= Seq::<MemberData>::empty());
        assert(views(out@) =~= Seq::<InviteData>::empty());
    }
    while i < members.len()
        invariant
            i <= members@.len(),
            ms == views(members@),
            cs == views(contacts@),
            views(out@) == founding_invites(ms.take(i as int), cs, me@),
        decreases members@.len() - i,
    {
        let ghost before = out@;
        let m = &members[i];
        let at: usize = find_by_key(contacts, &m.pubkey);
        if !same_key(&m.pubkey, me) && at < contacts.len() {
            let c = &contacts[at];
            assert(cs[at as int] == c@);
            if !c.last_address.as_str().is_empty() && !c.last_port.as_str().is_empty() {
                let to = Recipient {
                    contact_id: copy(c.contact_id.as_str()),
                    address: socket_address(c.last_address.as_str(), c.last_port.as_str()),
                    pubkey: c.pubkey,
                };
                out.push(Invite { to, your_sender_index: m.sender_index });
                assert(views(out@) =~= views(before).push(out@.last()@));
            }
        }
        proof {
            let now = ms.take(i + 1);
            assert(now.drop_last() =~= ms.take(i as int));
            assert(now.last() == members@[i as int]@);
        }
        i = i + 1;
    }
    assert(ms.take(i as int) =~= ms);
    out
}

/// The invitations to members added to a group: each goes to the address it was added
/// with, if that is complete.
pub open spec fn late_invites(added: Seq<MemberData>, me: Seq<u8>) -> Seq<InviteData>
    decreases added.len(),
{
    if added.len() == 0 {
        seq![]
    } else {
        let m = added.last();
        let done = late_invites(added.drop_last(), me);
        if reachable(m.address, m.port) {
            done.push(
                InviteData {
                    to: RecipientData {
                        contact_id: contact_id(me, m.pubkey),
                        address: socket_text(m.address, m.port),
                        pubkey: m.pubkey,
                    },
                    your_sender_index: m.sender_index,
                },
            )
        } else {
            done
        }
    }
}

/// Writes the invitations to the last `count` members of a group.
pub fn invites_to_added(members: &Vec<GroupMember>, count: usize, me: &[u8; 32]) -> (r: Vec<Invite>)
    requires
        count <= members@.len(),
    ensures
        views(r@) == late_invites(views(members@).skip(members@.len() - count), me@),
{
    let start: usize = members.len() - count;
    let ghost added = views(members@).skip(start as int);
    let mut out: Vec<Invite> = Vec::new();
    let mut i: usize = start;
    proof {
        assert(added.take(0) =~= Seq::<MemberData>::empty());
        assert(views(out@) =~= Seq::<InviteData>::empty());
    }
    while i < members.len()
        invariant
            start <= i <= members@.len(),
            added == views(members@).skip(start as int),
            views(out@) == late_invites(added.take(i - start), me@),
        decreases members@.len() - i,
    {
        let ghost before = out@;
        let m = &members[i];
        if !m.address.as_str().is_empty() && !m.port.as_str().is_empty() {
            let to = Recipient {
                contact_id: derive_contact_id(me, &m.pubkey),
                address: socket_address(m.address.as_str(), m.port.as_str()),
                pubkey: m.pubkey,
            };
            out.push(Invite { to, your_sender_index: m.sender_index });
            assert(views(out@) =~= views(before).push(out@.last()@));
        }
        proof {
            let now = added.take(i - start + 1);
            assert(now.drop_last() =~= added.take(i - start));
            assert(now.last() == members@[i as int]@);
        }
        i = i + 1;
    }
    assert(added.take(i - start) =~= added);
    out
}

/// The number of contacts ticked that are no members yet.
pub open spec fn invitable(
    contacts: Seq<ContactData>,
    selected: Seq<bool>,
    members: Seq<MemberData>,
) -> int
    decreases contacts.len(),
{
    if contacts.len() == 0 {
        0
    } else {
        invitable(contacts.drop_last(), selected, members) + if ticked(selected, contacts.len() - 1)
            && !is_member(members, contacts.last().pubkey) {
            1int
        } else {
            0
        }
    }
}

/// Counts the contacts that the invite button would invite.
pub fn invite_count(
    contacts: &Vec<Contact>,
    selected: &Vec<bool>,
    members: &Vec<GroupMember>,
) -> (r: usize)
    ensures
        r == invitable(views(contacts@), selected@, views(members@)),
{
    let ghost cs = views(contacts@);
    let mut n: usize = 0;
    let mut i: usize = 0;
    assert(cs.take(0) =~= Seq::<ContactData>::empty());
    while i < contacts.len()
        invariant
            i <= contacts@.len(),
            n <= i,
            cs == views(contacts@),
            n == invitable(cs.take(i as int), selected@, views(members@)),
        decreases contacts@.len() - i,
    {
        proof {
            let now = cs.take(i + 1);
            assert(now.drop_last() =~= cs.take(i as int));
            assert(now.last() == contacts@[i as int]@);
        }
        if i < selected.len() && selected[i] && !has_member(members, &contacts[i].pubkey) {
            n = n + 1;
        }
        i = i + 1;
    }
    assert(cs.take(i as int) =~= cs);
    n
}

/// The invite button invites as many as it says.
pub proof fn invite_count_is_exact(
    g: GroupData,
    contacts: Seq<ContactData>,
    selected: Seq<bool>,
    joined_at: u64,
)
    ensures
        with_invited(g, contacts, selected, joined_at).members.len() == g.members.len()
            + invitable(contacts, selected, g.members),
    decreases contacts.len(),
{
    if contacts.len() > 0 {
        invite_count_is_exact(g, contacts.drop_last(), selected, joined_at);
    }
}

/// Those seen in a voice channel: who, and the mode their call runs in.
pub struct CallPresence {
    pub contact_id: String,
    pub mode: u8,
}

/// The mode of the call in progress, by what the first member in it signals.
pub open spec fn locked_mode(first: Option<u8>) -> CallMode {
    if first == Some(1u8) {
        CallMode::P2P
    } else {
        CallMode::Relay
    }
}

/// Takes over the mode of a call in progress, if there is one. The answer says whether
/// the group is to be saved.
pub fn adopt_call_mode(group: &mut Group, present: &Vec<CallPresence>) -> (r: bool)
    ensures
        present@.len() == 0 ==> final(group)@ == old(group)@ && !r,
        present@.len() > 0 ==> final(group)@ == (GroupData {
            call_mode: locked_mode(Some(present@[0].mode)),
            ..old(group)@
        }) && r == (old(group)@.call_mode != locked_mode(Some(present@[0].mode))),
{
    if present.len() == 0 {
        return false;
    }
    let target = if present[0].mode == 1 {
        CallMode::P2P
    } else {
        CallMode::Relay
    };
    if group.call_mode == target {
        false
    } else {
        group.call_mode = target;
        true
    }
}

/// The role a member of a group call plays.
#[derive(Clone, Copy, PartialEq, Eq, Structural)]
pub enum GroupRole {
    Leader,
    Member,
}

/// The label that shows the role in a call; a call whose role is not known yet shows a
/// member.
pub fn role_label(mode: CallMode, role: Option<GroupRole>) -> (r: String)
    ensures
        r@ == (match mode {
            CallMode::P2P => "P2P"@,
            CallMode::Relay => if role == Some(GroupRole::Leader) {
                "LEADER"@
            } else {
                "MEMBER"@
            },
        }),
{
    match mode {
        CallMode::P2P => copy("P2P"),
        CallMode::Relay => match role {
            Some(GroupRole::Leader) => copy("LEADER"),
            _ => copy("MEMBER"),
        },
    }
}

/// A key belongs to a member exactly if a member has it: the last one, or one before.
pub proof fn members_are_known_by_key(members: Seq<MemberData>, m: MemberData, key: Seq<u8>)
    ensures
        !is_member(seq![], key),
        !is_admin(seq![], key),
        is_member(members.push(m), key) == (is_member(members, key) || m.pubkey == key),
        is_admin(members.push(m), key) == (is_admin(members, key) || (m.pubkey == key
            && m.is_admin)),
{
    let more = members.push(m);
    let n = members.len() as int;
    assert(more[n] == m);
    assert forall|i: int| 0 <= i < n implies #[trigger] more[i] == members[i] by {
    }
    if is_member(members, key) {
        let i = choose|i: int| 0 <= i < n && (#[trigger] members[i]).pubkey == key;
        assert(more[i].pubkey == key);
    }
    if is_admin(members, key) {
        let i = choose|i: int|
            0 <= i < n && (#[trigger] members[i]).pubkey == key && members[i].is_admin;
        assert(more[i].pubkey == key && more[i].is_admin);
    }
    if is_member(more, key) && m.pubkey != key {
        let i = choose|i: int| 0 <= i <= n && (#[trigger] more[i]).pubkey == key;
        assert(members[i].pubkey == key);
    }
    if is_admin(more, key) && !(m.pubkey == key && m.is_admin) {
        let i = choose|i: int|
            0 <= i <= n && (#[trigger] more[i]).pubkey == key && more[i].is_admin;
        assert(members[i].pubkey == key && members[i].is_admin);
    }
}

/// A change of a group goes to every other member with an address and a port, once and in
/// the order of the members, to that address, under the key of that member and the identifier
/// shared with it. The answer holds the position of the member that each recipient is.
pub proof fn changes_go_to_the_others(members: Seq<MemberData>, me: Seq<u8>) -> (src: Seq<int>)
    ensures
        picks(src, members.len() as int),
        src.len() == other_members(members, me).len(),
        forall|i: int|
            0 <= i < src.len() ==> {
                let m = members[#[trigger] src[i]];
                let r = other_members(members, me)[i];
                &&& m.pubkey != me
                &&& m.address.len() > 0
                &&& m.port.len() > 0
                &&& r.pubkey == m.pubkey
                &&& r.contact_id == contact_id(me, m.pubkey)
                &&& r.address == socket_text(m.address, m.port)
            },
        forall|k: int|
            0 <= k < members.len() && (#[trigger] members[k]).pubkey != me
                && members[k].address.len() > 0 && members[k].port.len() > 0 ==> src.contains(k),
    decreases members.len(),
{
    if members.len() == 0 {
        seq![]
    } else {
        let n = members.len() - 1;
        let head = members.drop_last();
        let src = changes_go_to_the_others(head, me);
        let m = members.last();
        assert forall|k: int| 0 <= k < n implies #[trigger] members[k] == head[k] by {
        }
        if m.pubkey != me && m.address.len() > 0 && m.port.len() > 0 {
            picks_one_more(src, n);
            src.push(n)
        } else {
            src
        }
    }
}

/// A message to a group goes to every other member that can be reached, once and in the
/// order of the members, under the key of that member and the identifier shared with it. It
/// goes to the address of the first contact with that identifier, or to the one in the group
/// where there is no such contact. The answer holds the position of the member that each
/// recipient is.
pub proof fn messages_go_to_the_others(
    members: Seq<MemberData>,
    contacts: Seq<ContactData>,
    me: Seq<u8>,
) -> (src: Seq<int>)
    ensures
        picks(src, members.len() as int),
        src.len() == chat_recipients(members, contacts, me).len(),
        forall|i: int|
            0 <= i < src.len() ==> {
                let m = members[#[trigger] src[i]];
                let r = chat_recipients(members, contacts, me)[i];
                &&& m.pubkey != me
                &&& r.pubkey == m.pubkey
                &&& r.contact_id == contact_id(me, m.pubkey)
                &&& exists|ip: Seq<char>, port: Seq<char>| #[trigger]
                    member_is_at(m, contacts, me, ip, port) && ip.len() > 0 && port.len() > 0
                        && r.address == socket_text(ip, port)
            },
        forall|k: int, ip: Seq<char>, port: Seq<char>|
            0 <= k < members.len() && members[k].pubkey != me && #[trigger] member_is_at(
                members[k],
                contacts,
                me,
                ip,
                port,
            ) && ip.len() > 0 && port.len() > 0 ==> src.contains(k),
    decreases members.len(),
{
    if members.len() == 0 {
        seq![]
    } else {
        let n = members.len() - 1;
        let head = members.drop_last();
        let src = messages_go_to_the_others(head, contacts, me);
        let m = members.last();
        let a = chat_address(m, contacts, me);
        member_address_is(m, contacts, me);
        assert forall|k: int| 0 <= k < n implies #[trigger] members[k] == head[k] by {
        }
        let goes = m.pubkey != me && a.0.len() > 0 && a.1.len() > 0;
        let all = if goes {
            picks_one_more(src, n);
            src.push(n)
        } else {
            src
        };
        assert forall|k: int, ip: Seq<char>, port: Seq<char>|
            0 <= k < members.len() && members[k].pubkey != me && #[trigger] member_is_at(
                members[k],
                contacts,
                me,
                ip,
                port,
            ) && ip.len() > 0 && port.len() > 0 implies all.contains(k) by {
            if k < n {
                assert(member_is_at(head[k], contacts, me, ip, port));
                assert(src.contains(k));
            } else {
                member_is_at_one_place(m, contacts, me, a.0, a.1, ip, port);
            }
        }
        assert forall|i: int| 0 <= i < all.len() implies {
            let m = members[#[trigger] all[i]];
            let r = chat_recipients(members, contacts, me)[i];
            &&& m.pubkey != me
            &&& r.pubkey == m.pubkey
            &&& r.contact_id == contact_id(me, m.pubkey)
            &&& exists|ip: Seq<char>, port: Seq<char>| #[trigger]
                member_is_at(m, contacts, me, ip, port) && ip.len() > 0 && port.len() > 0
                    && r.address == socket_text(ip, port)
        } by {
            if i < src.len() {
                assert(all[i] == src[i]);
                assert(members[src[i]] == head[src[i]]);
            } else {
                assert(member_is_at(m, contacts, me, a.0, a.1));
            }
        }
        all
    }
}

/// Where a member of a group is now: where the first contact with the shared identifier was
/// last, or where the group says if there is no such contact.
pub open spec fn member_is_at(
    m: MemberData,
    contacts: Seq<ContactData>,
    me: Seq<u8>,
    ip: Seq<char>,
    port: Seq<char>,
) -> bool {
    let id = contact_id(me, m.pubkey);
    ||| exists|j: int|
        0 <= j < contacts.len() && (#[trigger] contacts[j]).contact_id == id && (forall|k: int|
            0 <= k < j ==> (#[trigger] contacts[k]).contact_id != id) && ip
            == contacts[j].last_address && port == contacts[j].last_port
    ||| (forall|j: int| 0 <= j < contacts.len() ==> (#[trigger] contacts[j]).contact_id != id)
        && ip == m.address && port == m.port
}

proof fn member_is_at_one_place(
    m: MemberData,
    contacts: Seq<ContactData>,
    me: Seq<u8>,
    a: Seq<char>,
    b: Seq<char>,
    c: Seq<char>,
    d: Seq<char>,
)
    requires
        member_is_at(m, contacts, me, a, b),
        member_is_at(m, contacts, me, c, d),
    ensures
        a == c,
        b == d,
{
}

proof fn first_contact(contacts: Seq<ContactData>, id: Seq<char>) -> (i: int)
    ensures
        0 <= i <= contacts.len(),
        forall|k: int| 0 <= k < i ==> (#[trigger] contacts[k]).contact_id != id,
        i < contacts.len() ==> contacts[i].contact_id == id,
    decreases contacts.len(),
{
    if contacts.len() == 0 || contacts[0].contact_id == id {
        0
    } else {
        let t = contacts.drop_first();
        let i = first_contact(t, id) + 1;
        assert forall|k: int| 0 <= k < i implies (#[trigger] contacts[k]).contact_id != id by {
            if k > 0 {
                assert(t[k - 1] == contacts[k]);
            }
        }
        i
    }
}

proof fn member_address_is(m: MemberData, contacts: Seq<ContactData>, me: Seq<u8>)
    ensures
        member_is_at(
            m,
            contacts,
            me,
            chat_address(m, contacts, me).0,
            chat_address(m, contacts, me).1,
        ),
{
    let id = contact_id(me, m.pubkey);
    let i = first_contact(contacts, id);
    live_address_is(contacts, id, i);
}

/// Those recruited are the ticked contacts whose key no member has, each once, in the order
/// of the contacts, under the contact's own key, name, fingerprint and address. They are no
/// administrators, and are numbered on from the first free number. The answer holds the
/// position of the contact that each recruit is.
pub proof fn recruits_are_the_ticked(
    contacts: Seq<ContactData>,
    selected: Seq<bool>,
    taken: Seq<MemberData>,
    first: int,
    joined_at: u64,
) -> (src: Seq<int>)
    ensures
        picks(src, contacts.len() as int),
        src.len() == recruits(contacts, selected, taken, first, joined_at).len(),
        forall|i: int|
            0 <= i < src.len() ==> {
                let c = contacts[#[trigger] src[i]];
                let m = recruits(contacts, selected, taken, first, joined_at)[i];
                &&& src[i] < selected.len()
                &&& selected[src[i]]
                &&& forall|t: int|
                    0 <= t < taken.len() ==> (#[trigger] taken[t]).pubkey != c.pubkey
                &&& m.pubkey == c.pubkey
                &&& m.nickname == c.nickname
                &&& m.fingerprint == c.fingerprint
                &&& m.address == c.last_address
                &&& m.port == c.last_port
                &&& !m.is_admin
                &&& m.joined_at == joined_at
                &&& (0 <= first && first + i <= u16::MAX ==> m.sender_index == first + i)
            },
        forall|k: int|
            0 <= k < contacts.len() && k < selected.len() && #[trigger] selected[k] && (forall|
                t: int,
            |
                0 <= t < taken.len() ==> (#[trigger] taken[t]).pubkey != contacts[k].pubkey)
                ==> src.contains(k),
    decreases contacts.len(),
{
    if contacts.len() == 0 {
        seq![]
    } else {
        let n = contacts.len() - 1;
        let head = contacts.drop_last();
        let src = recruits_are_the_ticked(head, selected, taken, first, joined_at);
        let c = contacts.last();
        assert forall|k: int| 0 <= k < n implies #[trigger] contacts[k] == head[k] by {
        }
        let free = !is_member(taken, c.pubkey);
        if free {
            assert forall|t: int| 0 <= t < taken.len() implies (#[trigger] taken[t]).pubkey
                != c.pubkey by {
            }
        }
        let all = if n < selected.len() && selected[n] && free {
            picks_one_more(src, n);
            src.push(n)
        } else {
            src
        };
        assert forall|k: int|
            0 <= k < contacts.len() && k < selected.len() && #[trigger] selected[k] && (forall|
                t: int,
            |
                0 <= t < taken.len() ==> (#[trigger] taken[t]).pubkey
                    != contacts[k].pubkey) implies all.contains(k) by {
            if k < n {
                assert(contacts[k] == head[k]);
                assert(src.contains(k));
            }
        }
        assert forall|i: int| 0 <= i < all.len() implies {
            let c = contacts[#[trigger] all[i]];
            let m = recruits(contacts, selected, taken, first, joined_at)[i];
            &&& all[i] < selected.len()
            &&& selected[all[i]]
            &&& forall|t: int| 0 <= t < taken.len() ==> (#[trigger] taken[t]).pubkey != c.pubkey
            &&& m.pubkey == c.pubkey
            &&& m.nickname == c.nickname
            &&& m.fingerprint == c.fingerprint
            &&& m.address == c.last_address
            &&& m.port == c.last_port
            &&& !m.is_admin
            &&& m.joined_at == joined_at
            &&& (0 <= first && first + i <= u16::MAX ==> m.sender_index == first + i)
        } by {
            if i < src.len() {
                assert(all[i] == src[i]);
                assert(contacts[src[i]] == head[src[i]]);
            }
        }
        all
    }
}

/// A new group has its founder first, and behind them one member for each ticked contact: as
/// many as the button to create it says.
pub proof fn new_group_is_as_large_as_announced(
    me: MemberData,
    contacts: Seq<ContactData>,
    selected: Seq<bool>,
    joined_at: u64,
)
    requires
        selected.len() == contacts.len(),
    ensures
        founding_members(me, contacts, selected, joined_at).len() == tick_count(selected) + 1,
        founding_members(me, contacts, selected, joined_at)[0] == me,
        founding_members(me, contacts, selected, joined_at).skip(1) == recruits(
            contacts,
            selected,
            seq![],
            1,
            joined_at,
        ),
    decreases contacts.len(),
{
    let others = recruits(contacts, selected, seq![], 1, joined_at);
    assert((seq![me] + others).skip(1) =~= others);
    if contacts.len() > 0 {
        let head = contacts.drop_last();
        let ticks = selected.drop_last();
        new_group_is_as_large_as_announced(me, head, ticks, joined_at);
        recruits_see_ticks_before(head, ticks, selected, seq![], 1, joined_at);
    }
}

proof fn recruits_see_ticks_before(
    contacts: Seq<ContactData>,
    a: Seq<bool>,
    b: Seq<bool>,
    taken: Seq<MemberData>,
    first: int,
    joined_at: u64,
)
    requires
        forall|i: int| 0 <= i < contacts.len() ==> ticked(a, i) == #[trigger] ticked(b, i),
    ensures
        recruits(contacts, a, taken, first, joined_at) == recruits(
            contacts,
            b,
            taken,
            first,
            joined_at,
        ),
    decreases contacts.len(),
{
    if contacts.len() > 0 {
        recruits_see_ticks_before(contacts.drop_last(), a, b, taken, first, joined_at);
        assert(ticked(a, contacts.len() - 1) == ticked(b, contacts.len() - 1));
    }
}

/// Each tick counts for one, and a group with a name can be created once there is one.
pub proof fn every_tick_counts(name: Seq<char>, selected: Seq<bool>, tick: bool)
    ensures
        tick_count(seq![]) == 0,
        tick_count(selected.push(tick)) == tick_count(selected) + (if tick {
            1int
        } else {
            0
        }),
        creatable(name, selected) <==> trimmed(name).len() > 0 && tick_count(selected) > 0,
    decreases selected.len(),
{
    assert(selected.push(tick).drop_last() =~= selected);
    ticks_are_counted(selected);
}

proof fn ticks_are_counted(selected: Seq<bool>)
    ensures
        tick_count(selected) >= 0,
        tick_count(selected) > 0 <==> selected.contains(true),
    decreases selected.len(),
{
    if selected.len() > 0 {
        let head = selected.drop_last();
        ticks_are_counted(head);
        if head.contains(true) {
            let i = head.index_of(true);
            assert(selected[i]);
        }
        if selected.contains(true) && !selected.last() {
            let i = selected.index_of(true);
            assert(head[i]);
        }
        if selected.last() {
            assert(selected[selected.len() - 1]);
        }
    }
}

/// The founder is the administrator of a new group, with number zero, under their own key,
/// name, fingerprint and address.
pub proof fn the_founder_leads(
    key: Seq<u8>,
    nickname: Seq<char>,
    fingerprint: Seq<char>,
    address: Seq<char>,
    port: Seq<char>,
)
    ensures
        ({
            let m = founder(key, nickname, fingerprint, address, port);
            &&& m.is_admin
            &&& m.sender_index == 0
            &&& m.pubkey == key
            &&& m.nickname == nickname
            &&& m.fingerprint == fingerprint
            &&& m.address == address
            &&& m.port == port
            &&& m.joined_at == 0
        }),
{
}

/// Inviting adds the recruits behind the members, and moves the next free number on by as
/// many. Nothing else of the group changes.
pub proof fn inviting_changes_nothing_else(
    g: GroupData,
    contacts: Seq<ContactData>,
    selected: Seq<bool>,
    joined_at: u64,
)
    ensures
        ({
            let after = with_invited(g, contacts, selected, joined_at);
            let added = recruits(
                contacts,
                selected,
                g.members,
                g.next_sender_index as int,
                joined_at,
            );
            &&& after.members.len() == g.members.len() + added.len()
            &&& after.members.take(g.members.len() as int) == g.members
            &&& after.members.skip(g.members.len() as int) == added
            &&& (g.next_sender_index + added.len() <= u16::MAX ==> after.next_sender_index
                == g.next_sender_index + added.len())
            &&& after.group_id == g.group_id
            &&& after.name == g.name
            &&& after.created_by == g.created_by
            &&& after.created_at == g.created_at
            &&& after.group_key == g.group_key
            &&& after.avatar_sha256 == g.avatar_sha256
            &&& after.text_channels == g.text_channels
            &&& after.voice_channels == g.voice_channels
            &&& after.call_mode == g.call_mode
            &&& after.key_version == g.key_version
            &&& after.previous_key == g.previous_key
        }),
{
    let added = recruits(contacts, selected, g.members, g.next_sender_index as int, joined_at);
    assert((g.members + added).take(g.members.len() as int) =~= g.members);
    assert((g.members + added).skip(g.members.len() as int) =~= added);
}

/// A group that someone left keeps every other member as they were, in their order, has the
/// new key, remembers the last one, and counts the change. Nothing else of it changes. The
/// answer holds the positions of those who stay.
pub proof fn leaving_changes_nothing_else(g: GroupData, key: Seq<u8>, new_key: Seq<u8>) -> (src:
    Seq<int>)
    requires
        g.key_version < u32::MAX,
    ensures
        picks(src, g.members.len() as int),
        src.len() == departed(g, key, new_key).members.len(),
        forall|i: int|
            0 <= i < src.len() ==> departed(g, key, new_key).members[i]
                == g.members[#[trigger] src[i]] && g.members[src[i]].pubkey != key,
        forall|k: int|
            0 <= k < g.members.len() && (#[trigger] g.members[k]).pubkey != key ==> src.contains(k),
        ({
            let after = departed(g, key, new_key);
            &&& after.group_key == new_key
            &&& after.previous_key == Some(g.group_key)
            &&& after.key_version == g.key_version + 1
            &&& after.group_id == g.group_id
            &&& after.name == g.name
            &&& after.created_by == g.created_by
            &&& after.created_at == g.created_at
            &&& after.next_sender_index == g.next_sender_index
            &&& after.avatar_sha256 == g.avatar_sha256
            &&& after.text_channels == g.text_channels
            &&& after.voice_channels == g.voice_channels
            &&& after.call_mode == g.call_mode
        }),
{
    kept_in_order(g.members, other_than(key))
}

/// An invitation to a new group goes to every other member that is a contact with an address
/// and a port, once and in the order of the members. It goes to the first contact with the
/// key of the member, and names the number of the member. The answer holds the position of
/// the member that each invitation is for.
pub proof fn founders_invite_everyone(
    members: Seq<MemberData>,
    contacts: Seq<ContactData>,
    me: Seq<u8>,
) -> (src: Seq<int>)
    ensures
        picks(src, members.len() as int),
        src.len() == founding_invites(members, contacts, me).len(),
        forall|i: int|
            0 <= i < src.len() ==> {
                let m = members[#[trigger] src[i]];
                let v = founding_invites(members, contacts, me)[i];
                &&& m.pubkey != me
                &&& v.your_sender_index == m.sender_index
                &&& v.to.pubkey == m.pubkey
                &&& exists|j: int| #[trigger]
                    first_with_key(contacts, m.pubkey, j) && contacts[j].last_address.len() > 0
                        && contacts[j].last_port.len() > 0 && v.to.contact_id
                        == contacts[j].contact_id && v.to.address == socket_text(
                        contacts[j].last_address,
                        contacts[j].last_port,
                    )
            },
        forall|k: int, j: int|
            0 <= k < members.len() && members[k].pubkey != me && #[trigger] first_with_key(
                contacts,
                members[k].pubkey,
                j,
            ) && contacts[j].last_address.len() > 0 && contacts[j].last_port.len() > 0
                ==> src.contains(k),
    decreases members.len(),
{
    if members.len() == 0 {
        seq![]
    } else {
        let n = members.len() - 1;
        let head = members.drop_last();
        let src = founders_invite_everyone(head, contacts, me);
        let m = members.last();
        let at = contact_with_key(contacts, m.pubkey);
        contact_is_first(contacts, m.pubkey);
        assert forall|k: int| 0 <= k < n implies #[trigger] members[k] == head[k] by {
        }
        let goes = m.pubkey != me && at < contacts.len() && contacts[at].last_address.len() > 0
            && contacts[at].last_port.len() > 0;
        let all = if goes {
            picks_one_more(src, n);
            src.push(n)
        } else {
            src
        };
        assert forall|k: int, j: int|
            0 <= k < members.len() && members[k].pubkey != me && #[trigger] first_with_key(
                contacts,
                members[k].pubkey,
                j,
            ) && contacts[j].last_address.len() > 0 && contacts[j].last_port.len()
                > 0 implies all.contains(k) by {
            if k < n {
                assert(first_with_key(contacts, head[k].pubkey, j));
                assert(src.contains(k));
            } else {
                contact_with_key_is(contacts, m.pubkey, j);
            }
        }
        assert forall|i: int| 0 <= i < all.len() implies {
            let m = members[#[trigger] all[i]];
            let v = founding_invites(members, contacts, me)[i];
            &&& m.pubkey != me
            &&& v.your_sender_index == m.sender_index
            &&& v.to.pubkey == m.pubkey
            &&& exists|j: int| #[trigger]
                first_with_key(contacts, m.pubkey, j) && contacts[j].last_address.len() > 0
                    && contacts[j].last_port.len() > 0 && v.to.contact_id == contacts[j].contact_id
                    && v.to.address == socket_text(
                    contacts[j].last_address,
                    contacts[j].last_port,
                )
        } by {
            if i < src.len() {
                assert(all[i] == src[i]);
                assert(members[src[i]] == head[src[i]]);
            } else {
                assert(first_with_key(contacts, m.pubkey, at));
            }
        }
        all
    }
}

/// Whether a contact is the first with a key.
pub open spec fn first_with_key(contacts: Seq<ContactData>, key: Seq<u8>, j: int) -> bool {
    &&& 0 <= j < contacts.len()
    &&& contacts[j].pubkey == key
    &&& forall|k: int| 0 <= k < j ==> (#[trigger] contacts[k]).pubkey != key
}

proof fn contact_is_first(contacts: Seq<ContactData>, key: Seq<u8>)
    ensures
        0 <= contact_with_key(contacts, key) <= contacts.len(),
        contact_with_key(contacts, key) < contacts.len() ==> first_with_key(
            contacts,
            key,
            contact_with_key(contacts, key),
        ),
    decreases contacts.len(),
{
    if contacts.len() > 0 && contacts[0].pubkey != key {
        let t = contacts.drop_first();
        contact_is_first(t, key);
        let at = contact_with_key(contacts, key);
        if at < contacts.len() {
            assert forall|k: int| 0 <= k < at implies (#[trigger] contacts[k]).pubkey != key by {
                if k > 0 {
                    assert(t[k - 1] == contacts[k]);
                }
            }
        }
    }
}

/// An invitation to members that were added goes to each of them with an address and a port,
/// once and in their order, to that address, under their key and the identifier shared with
/// them, and names their number. The answer holds the position of the member that each
/// invitation is for.
pub proof fn added_members_are_invited(added: Seq<MemberData>, me: Seq<u8>) -> (src: Seq<int>)
    ensures
        picks(src, added.len() as int),
        src.len() == late_invites(added, me).len(),
        forall|i: int|
            0 <= i < src.len() ==> {
                let m = added[#[trigger] src[i]];
                let v = late_invites(added, me)[i];
                &&& m.address.len() > 0
                &&& m.port.len() > 0
                &&& v.your_sender_index == m.sender_index
                &&& v.to.pubkey == m.pubkey
                &&& v.to.contact_id == contact_id(me, m.pubkey)
                &&& v.to.address == socket_text(m.address, m.port)
            },
        forall|k: int|
            0 <= k < added.len() && (#[trigger] added[k]).address.len() > 0 && added[k].port.len()
                > 0 ==> src.contains(k),
    decreases added.len(),
{
    if added.len() == 0 {
        seq![]
    } else {
        let n = added.len() - 1;
        let head = added.drop_last();
        let src = added_members_are_invited(head, me);
        let m = added.last();
        assert forall|k: int| 0 <= k < n implies #[trigger] added[k] == head[k] by {
        }
        if m.address.len() > 0 && m.port.len() > 0 {
            picks_one_more(src, n);
            src.push(n)
        } else {
            src
        }
    }
}

/// The invite button counts exactly those who would be recruited.
pub proof fn invitable_are_recruited(
    contacts: Seq<ContactData>,
    selected: Seq<bool>,
    members: Seq<MemberData>,
    first: int,
    joined_at: u64,
)
    ensures
        invitable(contacts, selected, members) == recruits(
            contacts,
            selected,
            members,
            first,
            joined_at,
        ).len(),
    decreases contacts.len(),
{
    if contacts.len() > 0 {
        invitable_are_recruited(contacts.drop_last(), selected, members, first, joined_at);
    }
}

/// A call in progress is between peers exactly if the first in it signals one; any other
/// signal, or none, is a relayed call.
pub proof fn locked_mode_is_signalled(mode: u8)
    ensures
        locked_mode(Some(mode)) == CallMode::P2P <==> mode == 1,
        locked_mode(None) == CallMode::Relay,
{
}

/// A received copy brings the name, the members and the picture of a group, and leaves
/// alone what each member keeps for themselves.
pub proof fn updates_bring_what_is_shared(
    g: GroupData,
    received: GroupData,
    text_channels: Seq<ChannelData>,
)
    ensures
        ({
            let after = updated(g, received, text_channels);
            &&& after.name == received.name
            &&& after.members == received.members
            &&& after.avatar_sha256 == received.avatar_sha256
            &&& after.text_channels == text_channels
            &&& after.group_id == g.group_id
            &&& after.created_by == g.created_by
            &&& after.created_at == g.created_at
            &&& after.group_key == g.group_key
            &&& after.next_sender_index == g.next_sender_index
            &&& after.voice_channels == g.voice_channels
            &&& after.call_mode == g.call_mode
            &&& after.key_version == g.key_version
            &&& after.previous_key == g.previous_key
        }),
{
}

/// An address is complete exactly if neither part of it is missing.
pub proof fn complete_addresses_have_both_parts(ip: Seq<char>, port: Seq<char>)
    ensures
        ip.len() == 0 ==> !reachable(ip, port),
        port.len() == 0 ==> !reachable(ip, port),
        ip.len() > 0 && port.len() > 0 ==> reachable(ip, port),
{
}

/// Bytes that are there are viewed as what they are, and absent ones as absent.
pub proof fn absent_bytes_stay_absent(b: [u8; 32])
    ensures
        maybe_bytes(Some(b)) == Some(b@),
        maybe_bytes(None) is None,
{
}

} // verus!
