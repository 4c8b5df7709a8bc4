//! The channels of a group, and how two copies of them are brought together.

use vstd::prelude::*;

use crate::text::{copy, lowercase, same, swap_char, swapped, to_lowercase, trim, trimmed, views};

verus! {

/// How long the mark of a deleted channel is kept, in seconds.
pub const TOMBSTONE_SECS: u64 = 2_592_000;

/// A text or voice channel. A deleted channel stays listed for a while, so that other
/// members learn of its deletion.
pub struct Channel {
    pub channel_id: String,
    pub name: String,
    pub created_at: u64,
    pub created_by: [u8; 32],
    pub deleted: bool,
    pub deleted_at: Option<u64>,
}

/// A channel as mathematical data.
#[verifier::ext_equal]
pub struct ChannelData {
    pub channel_id: Seq<char>,
    pub name: Seq<char>,
    pub created_at: u64,
    pub created_by: Seq<u8>,
    pub deleted: bool,
    pub deleted_at: Option<u64>,
}

impl View for Channel {
    type V = ChannelData;

    open spec fn view(&self) -> ChannelData {
        ChannelData {
            channel_id: self.channel_id@,
            name: self.name@,
            created_at: self.created_at,
            created_by: self.created_by@,
            deleted: self.deleted,
            deleted_at: self.deleted_at,
        }
    }
}

impl Clone for Channel {
    fn clone(&self) -> (r: Self)
        ensures
            r@ == self@,
    {
        Channel {
            channel_id: copy(self.channel_id.as_str()),
            name: copy(self.name.as_str()),
            created_at: self.created_at,
            created_by: self.created_by,
            deleted: self.deleted,
            deleted_at: self.deleted_at,
        }
    }
}

/// No two channels have the same identifier.
pub open spec fn distinct_ids(s: Seq<ChannelData>) -> bool {
    forall|i: int, j: int|
        0 <= i < j < s.len() ==> (#[trigger] s[i]).channel_id != (#[trigger] s[j]).channel_id
}

/// The channels by identifier. Of several with one identifier the last counts.
pub open spec fn by_id(s: Seq<ChannelData>) -> Map<Seq<char>, ChannelData>
    decreases s.len(),
{
    if s.len() == 0 {
        Map::empty()
    } else {
        by_id(s.drop_last()).insert(s.last().channel_id, s.last())
    }
}

/// When a channel was deleted; a deletion without a time counts as the earliest.
pub open spec fn deletion_time(c: ChannelData) -> u64 {
    match c.deleted_at {
        Some(t) => t,
        None => 0,
    }
}

/// Which of two copies of a channel stands: a deleted one over a live one, of two
/// deleted ones the one deleted later, of two live ones the remote one.
pub open spec fn winner(local: ChannelData, remote: ChannelData) -> ChannelData {
    if local.deleted && remote.deleted {
        if deletion_time(remote) > deletion_time(local) {
            remote
        } else {
            local
        }
    } else if local.deleted {
        local
    } else {
        remote
    }
}

/// The channels after one remote channel was merged in.
pub open spec fn merge_one(m: Map<Seq<char>, ChannelData>, r: ChannelData) -> Map<
    Seq<char>,
    ChannelData,
> {
    if m.contains_key(r.channel_id) {
        m.insert(r.channel_id, winner(m[r.channel_id], r))
    } else {
        m.insert(r.channel_id, r)
    }
}

/// The channels after remote channels were merged in, one after the other.
pub open spec fn merge_all(m: Map<Seq<char>, ChannelData>, remote: Seq<ChannelData>) -> Map<
    Seq<char>,
    ChannelData,
>
    decreases remote.len(),
{
    if remote.len() == 0 {
        m
    } else {
        merge_one(merge_all(m, remote.drop_last()), remote.last())
    }
}

/// Whether a channel is still listed at a time: it is live, or deleted less than
/// thirty days ago, or at an unknown time.
pub open spec fn still_listed(c: ChannelData, now: u64) -> bool {
    c.deleted ==> match c.deleted_at {
        Some(t) => (if now >= t {
            now - t
        } else {
            0
        }) < TOMBSTONE_SECS,
        None => true,
    }
}

/// The channels without the marks of those deleted long ago.
pub open spec fn purged(m: Map<Seq<char>, ChannelData>, now: u64) -> Map<Seq<char>, ChannelData> {
    Map::new(|k: Seq<char>| m.contains_key(k) && still_listed(m[k], now), |k: Seq<char>| m[k])
}

/// A channel whose messages are to be moved to the fallback channel, by identifier and
/// the name it had.
pub struct Migration {
    pub channel_id: String,
    pub name: String,
}

/// A migration as mathematical data.
#[verifier::ext_equal]
pub struct MigrationData {
    pub channel_id: Seq<char>,
    pub name: Seq<char>,
}

impl View for Migration {
    type V = MigrationData;

    open spec fn view(&self) -> MigrationData {
        MigrationData { channel_id: self.channel_id@, name: self.name@ }
    }
}

/// The channels that a merge takes from live to deleted, with their local names.
pub open spec fn migrations(
    m: Map<Seq<char>, ChannelData>,
    remote: Seq<ChannelData>,
) -> Seq<MigrationData>
    decreases remote.len(),
{
    if remote.len() == 0 {
        seq![]
    } else {
        let done = merge_all(m, remote.drop_last());
        let r = remote.last();
        let before = migrations(m, remote.drop_last());
        if done.contains_key(r.channel_id) && r.deleted && !done[r.channel_id].deleted {
            before.push(MigrationData { channel_id: r.channel_id, name: done[r.channel_id].name })
        } else {
            before
        }
    }
}

proof fn by_id_holds(s: Seq<ChannelData>, i: int)
    requires
        distinct_ids(s),
        0 <= i < s.len(),
    ensures
        by_id(s).contains_key(s[i].channel_id),
        by_id(s)[s[i].channel_id] == s[i],
    decreases s.len(),
{
    let head = s.drop_last();
    if i < s.len() - 1 {
        assert(head[i] == s[i]);
        assert forall|a: int, b: int| 0 <= a < b < head.len() implies (#[trigger] head[a]).channel_id
            != (#[trigger] head[b]).channel_id by {
            assert(s[a] == head[a] && s[b] == head[b]);
        }
        by_id_holds(head, i);
        assert(s[i].channel_id != s[s.len() - 1].channel_id);
    }
}

proof fn by_id_only(s: Seq<ChannelData>, k: Seq<char>)
    ensures
        by_id(s).contains_key(k) ==> exists|i: int|
            0 <= i < s.len() && (#[trigger] s[i]).channel_id == k && s[i] == by_id(s)[k],
    decreases s.len(),
{
    if s.len() > 0 && by_id(s).contains_key(k) {
        let head = s.drop_last();
        if s.last().channel_id == k {
            assert(s[s.len() - 1].channel_id == k);
        } else {
            by_id_only(head, k);
            let i = choose|i: int|
                0 <= i < head.len() && (#[trigger] head[i]).channel_id == k && head[i] == by_id(
                    head,
                )[k];
            assert(s[i].channel_id == k);
        }
    }
}

proof fn by_id_update(s: Seq<ChannelData>, i: int, c: ChannelData)
    requires
        distinct_ids(s),
        0 <= i < s.len(),
        c.channel_id == s[i].channel_id,
    ensures
        distinct_ids(s.update(i, c)),
        by_id(s.update(i, c)) == by_id(s).insert(c.channel_id, c),
    decreases s.len(),
{
    let t = s.update(i, c);
    assert forall|a: int, b: int| 0 <= a < b < t.len() implies (#[trigger] t[a]).channel_id != (
    #[trigger] t[b]).channel_id by {
        assert(t[a].channel_id == s[a].channel_id && t[b].channel_id == s[b].channel_id);
    }
    let head = s.drop_last();
    assert forall|a: int, b: int| 0 <= a < b < head.len() implies (#[trigger] head[a]).channel_id
        != (#[trigger] head[b]).channel_id by {
        assert(s[a] == head[a] && s[b] == head[b]);
    }
    if i == s.len() - 1 {
        assert(t.drop_last() =~= head);
        assert(by_id(t) =~= by_id(s).insert(c.channel_id, c));
    } else {
        by_id_update(head, i, c);
        assert(t.drop_last() =~= head.update(i, c));
        assert(s[i].channel_id != s[s.len() - 1].channel_id);
        assert(by_id(t) =~= by_id(s).insert(c.channel_id, c));
    }
}

proof fn by_id_push(s: Seq<ChannelData>, c: ChannelData)
    requires
        distinct_ids(s),
        forall|i: int| 0 <= i < s.len() ==> (#[trigger] s[i]).channel_id != c.channel_id,
    ensures
        distinct_ids(s.push(c)),
        by_id(s.push(c)) == by_id(s).insert(c.channel_id, c),
        !by_id(s).contains_key(c.channel_id),
{
    assert(s.push(c).drop_last() =~= s);
    assert forall|a: int, b: int| 0 <= a < b < s.push(c).len() implies (#[trigger] s.push(
        c,
    )[a]).channel_id != (#[trigger] s.push(c)[b]).channel_id by {
        if b < s.len() {
            assert(s[a].channel_id != s[b].channel_id);
        }
    }
    by_id_only(s, c.channel_id);
}

/// The first position of a channel with an identifier.
fn find(list: &Vec<Channel>, id: &str) -> (r: usize)
    ensures
        r <= list@.len(),
        forall|k: int| 0 <= k < r ==> (#[trigger] views(list@)[k]).channel_id != id@,
        r < list@.len() ==> views(list@)[r as int].channel_id == id@,
{
    let mut i: usize = 0;
    while i < list.len()
        invariant
            i <= list@.len(),
            forall|k: int| 0 <= k < i ==> (#[trigger] views(list@)[k]).channel_id != id@,
        decreases list@.len() - i,
    {
        if same(list[i].channel_id.as_str(), id) {
            return i;
        }
        i = i + 1;
    }
    i
}

/// Puts a channel into a list in the place of the one with its identifier.
fn put(list: &mut Vec<Channel>, at: usize, c: Channel)
    requires
        distinct_ids(views(old(list)@)),
        at <= old(list)@.len(),
        at < old(list)@.len() ==> views(old(list)@)[at as int].channel_id == c@.channel_id,
        at == old(list)@.len() ==> forall|i: int|
            0 <= i < at ==> (#[trigger] views(old(list)@)[i]).channel_id != c@.channel_id,
    ensures
        distinct_ids(views(final(list)@)),
        by_id(views(final(list)@)) == by_id(views(old(list)@)).insert(c@.channel_id, c@),
{
    let ghost before = views(list@);
    let ghost cd = c@;
    if at < list.len() {
        list.set(at, c);
        proof {
            assert(views(list@) =~= before.update(at as int, cd));
            by_id_update(before, at as int, cd);
        }
    } else {
        list.push(c);
        proof {
            assert(views(list@) =~= before.push(cd));
            by_id_push(before, cd);
        }
    }
}

fn deleted_when(c: &Channel) -> (r: u64)
    ensures
        r == deletion_time(c@),
{
    match c.deleted_at {
        Some(t) => t,
        None => 0,
    }
}

fn merge_remote(merged: &mut Vec<Channel>, moved: &mut Vec<Migration>, r: &Channel)
    requires
        distinct_ids(views(old(merged)@)),
    ensures
        distinct_ids(views(final(merged)@)),
        by_id(views(final(merged)@)) == merge_one(by_id(views(old(merged)@)), r@),
        views(final(moved)@) == (if by_id(views(old(merged)@)).contains_key(r@.channel_id)
            && r@.deleted && !by_id(views(old(merged)@))[r@.channel_id].deleted {
            views(old(moved)@).push(
                MigrationData {
                    channel_id: r@.channel_id,
                    name: by_id(views(old(merged)@))[r@.channel_id].name,
                },
            )
        } else {
            views(old(moved)@)
        }),
{
    let ghost start = views(merged@);
    let ghost moved_before = moved@;
    let at: usize = find(merged, r.channel_id.as_str());
    if at == merged.len() {
        proof {
            by_id_push(start, r@);
        }
        put(merged, at, r.clone());
        return;
    }
    proof {
        by_id_holds(start, at as int);
    }
    let l_deleted = merged[at].deleted;
    let l_at: u64 = deleted_when(&merged[at]);
    if r.deleted && !l_deleted {
        let name = copy(merged[at].name.as_str());
        moved.push(Migration { channel_id: copy(r.channel_id.as_str()), name });
        assert(views(moved@) =~= views(moved_before).push(moved@.last()@));
    }
    let keep = l_deleted && (!r.deleted || deleted_when(r) <= l_at);
    if keep {
        assert(by_id(start).insert(r@.channel_id, start[at as int]) =~= by_id(start));
    } else {
        put(merged, at, r.clone());
    }
}

/// Brings the local channels and those of a received copy together. The answer holds
/// the merged channels, in no promised order, and the channels whose messages are to be
/// moved to the fallback channel.
pub fn merge_channels(local: &Vec<Channel>, remote: &Vec<Channel>, now: u64) -> (r: (
    Vec<Channel>,
    Vec<Migration>,
))
    ensures
        distinct_ids(views(r.0@)),
        by_id(views(r.0@)) == purged(merge_all(by_id(views(local@)), views(remote@)), now),
        views(r.1@) == migrations(by_id(views(local@)), views(remote@)),
{
    let ghost ls = views(local@);
    let ghost rs = views(remote@);
    let mut merged: Vec<Channel> = Vec::new();
    let mut moved: Vec<Migration> = Vec::new();
    let mut i: usize = 0;
    assert(ls.take(0) =~= Seq::<ChannelData>::empty());
    while i < local.len()
        invariant
            i <= local@.len(),
            ls == views(local@),
            distinct_ids(views(merged@)),
            by_id(views(merged@)) == by_id(ls.take(i as int)),
        decreases local@.len() - i,
    {
        let at: usize = find(&merged, local[i].channel_id.as_str());
        put(&mut merged, at, local[i].clone());
        proof {
            let now_taken = ls.take(i + 1);
            assert(now_taken.drop_last() =~= ls.take(i as int));
            assert(now_taken.last() == local@[i as int]@);
        }
        i = i + 1;
    }
    assert(ls.take(i as int) =~= ls);
    assert(rs.take(0) =~= Seq::<ChannelData>::empty());
    assert(views(moved@) =~= Seq::<MigrationData>::empty());
    let mut j: usize = 0;
    while j < remote.len()
        invariant
            j <= remote@.len(),
            rs == views(remote@),
            distinct_ids(views(merged@)),
            by_id(views(merged@)) == merge_all(by_id(ls), rs.take(j as int)),
            views(moved@) == migrations(by_id(ls), rs.take(j as int)),
        decreases remote@.len() - j,
    {
        proof {
            let taken = rs.take(j + 1);
            assert(taken.drop_last() =~= rs.take(j as int));
            assert(taken.last() == remote@[j as int]@);
        }
        merge_remote(&mut merged, &mut moved, &remote[j]);
        j = j + 1;
    }
    assert(rs.take(j as int) =~= rs);
    let kept = purge(&merged, now);
    (kept, moved)
}

fn is_listed(c: &Channel, now: u64) -> (r: bool)
    ensures
        r == still_listed(c@, now),
{
    if c.deleted {
        match c.deleted_at {
            Some(t) => now.saturating_sub(t) < TOMBSTONE_SECS,
            None => true,
        }
    } else {
        true
    }
}

fn purge(list: &Vec<Channel>, now: u64) -> (r: Vec<Channel>)
    requires
        distinct_ids(views(list@)),
    ensures
        distinct_ids(views(r@)),
        by_id(views(r@)) == purged(by_id(views(list@)), now),
{
    let ghost s = views(list@);
    let mut kept: Vec<Channel> = Vec::new();
    let mut i: usize = 0;
    proof {
        assert(s.take(0) =~= Seq::<ChannelData>::empty());
        assert(by_id(views(kept@)) =~= purged(by_id(s.take(0)), now));
    }
    while i < list.len()
        invariant
            i <= list@.len(),
            s == views(list@),
            distinct_ids(s),
            distinct_ids(views(kept@)),
            by_id(views(kept@)) == purged(by_id(s.take(i as int)), now),
        decreases list@.len() - i,
    {
        let ghost head = s.take(i as int);
        let ghost next = s.take(i + 1);
        let ghost held = views(kept@);
        proof {
            assert(next.drop_last() =~= head);
            assert(next.last() == list@[i as int]@);
            by_id_only(head, s[i as int].channel_id);
            assert(!by_id(head).contains_key(s[i as int].channel_id)) by {
                if by_id(head).contains_key(s[i as int].channel_id) {
                    let k = choose|k: int|
                        0 <= k < head.len() && (#[trigger] head[k]).channel_id
                            == s[i as int].channel_id && head[k] == by_id(
                            head,
                        )[s[i as int].channel_id];
                    assert(s[k].channel_id != s[i as int].channel_id);
                }
            }
        }
        if is_listed(&list[i], now) {
            kept.push(list[i].clone());
            proof {
                let c = s[i as int];
                assert(views(kept@) =~= held.push(c));
                assert forall|k: int| 0 <= k < held.len() implies (#[trigger] held[k]).channel_id
                    != c.channel_id by {
                    by_id_holds(held, k);
                }
                by_id_push(held, c);
            }
        }
        assert(by_id(views(kept@)) =~= purged(by_id(next), now));
        i = i + 1;
    }
    assert(s.take(i as int) =~= s);
    kept
}

/// Whether a channel of the merged list is missing from the received one, or deleted in
/// one and not in the other.
pub open spec fn unmatched(c: ChannelData, received: Seq<ChannelData>) -> bool {
    forall|j: int|
        0 <= j < received.len() ==> !((#[trigger] received[j]).channel_id == c.channel_id
            && received[j].deleted == c.deleted)
}

/// Whether the sender of a copy is to be told of the merged channels.
pub open spec fn differs(merged: Seq<ChannelData>, received: Seq<ChannelData>) -> bool {
    merged.len() != received.len() || exists|i: int|
        0 <= i < merged.len() && unmatched(#[trigger] merged[i], received)
}

fn has_no_match(c: &Channel, received: &Vec<Channel>) -> (r: bool)
    ensures
        r == unmatched(c@, views(received@)),
{
    let mut j: usize = 0;
    while j < received.len()
        invariant
            j <= received@.len(),
            forall|k: int|
                0 <= k < j ==> !((#[trigger] views(received@)[k]).channel_id == c@.channel_id
                    && views(received@)[k].deleted == c@.deleted),
        decreases received@.len() - j,
    {
        if same(received[j].channel_id.as_str(), c.channel_id.as_str()) && received[j].deleted
            == c.deleted {
            assert(views(received@)[j as int].channel_id == c@.channel_id);
            return false;
        }
        j = j + 1;
    }
    true
}

/// Decides whether the merged channels differ from the received ones.
pub fn merge_differs(merged: &Vec<Channel>, received: &Vec<Channel>) -> (r: bool)
    ensures
        r == differs(views(merged@), views(received@)),
{
    if merged.len() != received.len() {
        return true;
    }
    let mut i: usize = 0;
    while i < merged.len()
        invariant
            i <= merged@.len(),
            forall|k: int|
                0 <= k < i ==> !unmatched(#[trigger] views(merged@)[k], views(received@)),
        decreases merged@.len() - i,
    {
        if has_no_match(&merged[i], received) {
            assert(unmatched(views(merged@)[i as int], views(received@)));
            return true;
        }
        i = i + 1;
    }
    false
}

/// What the copies of one channel come to, from the local one on.
pub open spec fn settled(
    local: Option<ChannelData>,
    remote: Seq<ChannelData>,
    id: Seq<char>,
) -> Option<ChannelData>
    decreases remote.len(),
{
    if remote.len() == 0 {
        local
    } else {
        let before = settled(local, remote.drop_last(), id);
        let r = remote.last();
        if r.channel_id != id {
            before
        } else {
            match before {
                Some(l) => Some(winner(l, r)),
                None => Some(r),
            }
        }
    }
}

/// The entry of a map, if there is one.
pub open spec fn entry(m: Map<Seq<char>, ChannelData>, id: Seq<char>) -> Option<ChannelData> {
    if m.contains_key(id) {
        Some(m[id])
    } else {
        None
    }
}

proof fn merge_settles(m: Map<Seq<char>, ChannelData>, remote: Seq<ChannelData>, id: Seq<char>)
    ensures
        entry(merge_all(m, remote), id) == settled(entry(m, id), remote, id),
    decreases remote.len(),
{
    if remote.len() > 0 {
        merge_settles(m, remote.drop_last(), id);
        if remote.last().channel_id != id {
        }
    }
}

/// What it means for nothing in `remote` to change the copy `v` of a channel any more.
spec fn stands(v: ChannelData, remote: Seq<ChannelData>, id: Seq<char>) -> bool {
    if v.deleted {
        forall|i: int|
            0 <= i < remote.len() && (#[trigger] remote[i]).channel_id == id ==> winner(v, remote[i])
                == v
    } else {
        forall|i: int|
            0 <= i < remote.len() && (#[trigger] remote[i]).channel_id == id ==> !remote[i].deleted
    }
}

proof fn settled_stands(local: Option<ChannelData>, remote: Seq<ChannelData>, id: Seq<char>)
    ensures
        settled(local, remote, id) matches Some(v) ==> stands(v, remote, id),
        settled(local, remote, id) is None ==> forall|i: int|
            0 <= i < remote.len() ==> (#[trigger] remote[i]).channel_id != id,
    decreases remote.len(),
{
    if remote.len() > 0 {
        let head = remote.drop_last();
        settled_stands(local, head, id);
        let before = settled(local, head, id);
        let after = settled(local, remote, id);
        assert forall|i: int| 0 <= i < remote.len() - 1 implies remote[i] == #[trigger] head[i] by {
        }
        if after is Some {
            let v = after.unwrap();
            assert forall|i: int|
                0 <= i < remote.len() && (#[trigger] remote[i]).channel_id == id implies (if v.deleted {
                winner(v, remote[i]) == v
            } else {
                !remote[i].deleted
            }) by {
                if i < remote.len() - 1 {
                    assert(remote[i] == head[i]);
                    if before is Some {
                        let u = before.unwrap();
                        assert(stands(u, head, id));
                        assert(head[i].channel_id == id);
                    }
                }
            }
        } else {
            assert forall|i: int| 0 <= i < remote.len() implies (#[trigger] remote[i]).channel_id
                != id by {
                if i < remote.len() - 1 {
                    assert(remote[i] == head[i]);
                }
            }
        }
    }
}

proof fn deleted_stays(v: ChannelData, remote: Seq<ChannelData>, id: Seq<char>)
    requires
        v.deleted,
        stands(v, remote, id),
    ensures
        settled(Some(v), remote, id) == Some(v),
    decreases remote.len(),
{
    if remote.len() > 0 {
        let head = remote.drop_last();
        assert forall|i: int| 0 <= i < head.len() && (#[trigger] head[i]).channel_id == id implies winner(
            v,
            head[i],
        ) == v by {
            assert(remote[i] == head[i]);
        }
        deleted_stays(v, head, id);
        assert(remote[remote.len() - 1] == remote.last());
    }
}

/// Where all remote copies are live, the last of them counts, from wherever one starts.
proof fn live_last(
    a: Option<ChannelData>,
    b: Option<ChannelData>,
    remote: Seq<ChannelData>,
    id: Seq<char>,
)
    requires
        a matches Some(v) ==> !v.deleted,
        b matches Some(v) ==> !v.deleted,
        forall|i: int|
            0 <= i < remote.len() && (#[trigger] remote[i]).channel_id == id ==> !remote[i].deleted,
    ensures
        settled(a, remote, id) matches Some(v) ==> !v.deleted,
        settled(b, remote, id) matches Some(v) ==> !v.deleted,
        (exists|i: int| 0 <= i < remote.len() && (#[trigger] remote[i]).channel_id == id)
            ==> settled(a, remote, id) == settled(b, remote, id),
        (forall|i: int| 0 <= i < remote.len() ==> (#[trigger] remote[i]).channel_id != id)
            ==> settled(a, remote, id) == a,
    decreases remote.len(),
{
    if remote.len() > 0 {
        let head = remote.drop_last();
        assert forall|i: int| 0 <= i < head.len() && (#[trigger] head[i]).channel_id == id implies !head[i].deleted by {
            assert(remote[i] == head[i]);
        }
        live_last(a, b, head, id);
        assert(remote[remote.len() - 1] == remote.last());
        if remote.last().channel_id != id {
            if exists|i: int| 0 <= i < remote.len() && (#[trigger] remote[i]).channel_id == id {
                let i = choose|i: int| 0 <= i < remote.len() && (#[trigger] remote[i]).channel_id == id;
                assert(head[i].channel_id == id);
            }
            if forall|i: int| 0 <= i < remote.len() ==> (#[trigger] remote[i]).channel_id != id {
                assert forall|i: int| 0 <= i < head.len() implies (#[trigger] head[i]).channel_id
                    != id by {
                    assert(remote[i] == head[i]);
                }
            }
        }
    }
}

proof fn settled_again(local: Option<ChannelData>, remote: Seq<ChannelData>, id: Seq<char>)
    ensures
        settled(settled(local, remote, id), remote, id) == settled(local, remote, id),
{
    settled_stands(local, remote, id);
    let once = settled(local, remote, id);
    match once {
        Some(v) => {
            if v.deleted {
                deleted_stays(v, remote, id);
            } else {
                if local is Some && local.unwrap().deleted {
                    starts_deleted(local.unwrap(), remote, id);
                }
                live_last(once, local, remote, id);
            }
        },
        None => {
            never_named(remote, id);
        },
    }
}

proof fn starts_deleted(l: ChannelData, remote: Seq<ChannelData>, id: Seq<char>)
    requires
        l.deleted,
    ensures
        settled(Some(l), remote, id) matches Some(v) && v.deleted,
    decreases remote.len(),
{
    if remote.len() > 0 {
        starts_deleted(l, remote.drop_last(), id);
    }
}

proof fn never_named(remote: Seq<ChannelData>, id: Seq<char>)
    requires
        forall|i: int| 0 <= i < remote.len() ==> (#[trigger] remote[i]).channel_id != id,
    ensures
        settled(None, remote, id) is None,
    decreases remote.len(),
{
    if remote.len() > 0 {
        let head = remote.drop_last();
        assert forall|i: int| 0 <= i < head.len() implies (#[trigger] head[i]).channel_id != id by {
            assert(remote[i] == head[i]);
        }
        never_named(head, id);
        assert(remote[remote.len() - 1] == remote.last());
    }
}

/// Merging the same copy of a group a second time, before old marks are cleared, changes no
/// channel.
pub proof fn merging_twice_is_merging_once(local: Seq<ChannelData>, remote: Seq<ChannelData>)
    ensures
        merge_all(merge_all(by_id(local), remote), remote) == merge_all(by_id(local), remote),
{
    let m = by_id(local);
    let once = merge_all(m, remote);
    let twice = merge_all(once, remote);
    assert forall|id: Seq<char>| entry(once, id) == #[trigger] entry(twice, id) by {
        merge_settles(m, remote, id);
        merge_settles(once, remote, id);
        settled_again(entry(m, id), remote, id);
    }
    assert(once =~= twice) by {
        assert forall|id: Seq<char>| once.contains_key(id) == #[trigger] twice.contains_key(id) by {
            assert(entry(once, id) == entry(twice, id));
        }
        assert forall|id: Seq<char>| #[trigger] twice.contains_key(id) implies once[id] == twice[id] by {
            assert(entry(once, id) == entry(twice, id));
        }
    }
}

/// Receiving the same copy of a group a second time changes no channel either, if no channel
/// whose mark is cleared as too old is still live in that copy.
pub proof fn receiving_twice_is_receiving_once(
    local: Seq<ChannelData>,
    remote: Seq<ChannelData>,
    now: u64,
)
    requires
        forall|id: Seq<char>| #[trigger]
            merge_all(by_id(local), remote).contains_key(id) && !still_listed(
                merge_all(by_id(local), remote)[id],
                now,
            ) ==> match entry(merge_all(Map::empty(), remote), id) {
                Some(c) => !still_listed(c, now),
                None => true,
            },
    ensures
        ({
            let once = purged(merge_all(by_id(local), remote), now);
            purged(merge_all(once, remote), now) == once
        }),
{
    let merged = merge_all(by_id(local), remote);
    let once = purged(merged, now);
    let again = merge_all(once, remote);
    let twice = purged(again, now);
    assert forall|id: Seq<char>| entry(twice, id) == entry(once, id) by {
        let e = entry(by_id(local), id);
        merge_settles(by_id(local), remote, id);
        merge_settles(once, remote, id);
        merge_settles(Map::empty(), remote, id);
        settled_again(e, remote, id);
        settled_stands(e, remote, id);
        match settled(e, remote, id) {
            None => {
                never_named(remote, id);
            },
            Some(v) => {
                if still_listed(v, now) {
                    assert(entry(once, id) == Some(v));
                } else {
                    assert(entry(once, id) is None);
                    assert(merged.contains_key(id));
                    assert(entry(again, id) == entry(merge_all(Map::empty(), remote), id));
                }
            },
        }
    }
    assert forall|id: Seq<char>| #[trigger] twice.dom().contains(id) == once.dom().contains(id) by {
        assert(entry(twice, id) == entry(once, id));
    }
    assert forall|id: Seq<char>| twice.dom().contains(id) implies #[trigger] twice[id]
        == once[id] by {
        assert(entry(twice, id) == entry(once, id));
    }
    assert(twice.dom() =~= once.dom());
    assert(twice =~= once);
}

/// A channel deleted on either side is deleted after the merge: no copy brings it back
/// to life.
pub proof fn deletion_stands(local: Seq<ChannelData>, remote: Seq<ChannelData>, id: Seq<char>)
    requires
        (by_id(local).contains_key(id) && by_id(local)[id].deleted) || exists|i: int|
            0 <= i < remote.len() && (#[trigger] remote[i]).channel_id == id && remote[i].deleted,
    ensures
        merge_all(by_id(local), remote).contains_key(id),
        merge_all(by_id(local), remote)[id].deleted,
{
    let m = by_id(local);
    merge_settles(m, remote, id);
    settled_stands(entry(m, id), remote, id);
    if m.contains_key(id) && m[id].deleted {
        starts_deleted(m[id], remote, id);
    }
    assert(entry(merge_all(m, remote), id) is Some);
}

/// No channel is lost in a merge before the old marks are cleared: each local and each
/// received channel is still there.
pub proof fn merge_loses_nothing(local: Seq<ChannelData>, remote: Seq<ChannelData>, id: Seq<char>)
    requires
        by_id(local).contains_key(id) || exists|i: int|
            0 <= i < remote.len() && (#[trigger] remote[i]).channel_id == id,
    ensures
        merge_all(by_id(local), remote).contains_key(id),
{
    let m = by_id(local);
    merge_settles(m, remote, id);
    settled_stands(entry(m, id), remote, id);
    if m.contains_key(id) {
        settled_keeps(m[id], remote, id);
    }
    assert(entry(merge_all(m, remote), id) is Some);
}

proof fn settled_keeps(l: ChannelData, remote: Seq<ChannelData>, id: Seq<char>)
    ensures
        settled(Some(l), remote, id) is Some,
    decreases remote.len(),
{
    if remote.len() > 0 {
        settled_keeps(l, remote.drop_last(), id);
    }
}

/// Clearing old marks removes no live channel and no fresh mark, and every mark that is
/// thirty days old.
pub proof fn purging_removes_old_marks_only(
    m: Map<Seq<char>, ChannelData>,
    now: u64,
    id: Seq<char>,
)
    requires
        m.contains_key(id),
    ensures
        !m[id].deleted ==> purged(m, now).contains_key(id),
        m[id].deleted && m[id].deleted_at is Some ==> (purged(m, now).contains_key(id) <==> now
            - m[id].deleted_at.unwrap() < 30 * 24 * 60 * 60),
        m[id].deleted && m[id].deleted_at is None ==> purged(m, now).contains_key(id),
        purged(m, now).contains_key(id) ==> purged(m, now)[id] == m[id],
{
}

/// The list with a channel at its end, unless one with its identifier is there.
pub open spec fn with_channel(s: Seq<ChannelData>, c: ChannelData) -> Seq<ChannelData> {
    if exists|i: int| 0 <= i < s.len() && (#[trigger] s[i]).channel_id == c.channel_id {
        s
    } else {
        s.push(c)
    }
}

/// Makes sure that a list has a channel with the identifier of `c`.
pub fn ensure_channel(list: &mut Vec<Channel>, c: Channel)
    ensures
        views(final(list)@) == with_channel(views(old(list)@), c@),
{
    let ghost before = views(list@);
    let ghost cd = c@;
    let at: usize = find(list, c.channel_id.as_str());
    if at == list.len() {
        list.push(c);
        assert(views(list@) =~= before.push(cd));
    } else {
        assert(before[at as int].channel_id == cd.channel_id);
    }
}

/// Whether a channel with an identifier is listed.
pub open spec fn listed_id(list: Seq<ChannelData>, id: Seq<char>) -> bool {
    exists|i: int| 0 <= i < list.len() && (#[trigger] list[i]).channel_id == id
}

/// A channel that every group has.
pub open spec fn standing_channel(
    id: Seq<char>,
    name: Seq<char>,
    created_by: Seq<u8>,
    now: u64,
) -> ChannelData {
    ChannelData {
        channel_id: id,
        name,
        created_at: now,
        created_by,
        deleted: false,
        deleted_at: None,
    }
}

/// The text channels with the general and the fallback channel.
pub open spec fn with_standing_text(
    list: Seq<ChannelData>,
    created_by: Seq<u8>,
    now: u64,
) -> Seq<ChannelData> {
    with_channel(
        with_channel(list, standing_channel("general"@, "general"@, created_by, now)),
        standing_channel("fallback"@, "fallback"@, created_by, now),
    )
}

/// The voice channels with the one that every group has.
pub open spec fn with_standing_voice(
    list: Seq<ChannelData>,
    created_by: Seq<u8>,
    now: u64,
) -> Seq<ChannelData> {
    with_channel(list, standing_channel("voice_general"@, "general"@, created_by, now))
}

proof fn added_is_listed(list: Seq<ChannelData>, c: ChannelData)
    ensures
        listed_id(with_channel(list, c), c.channel_id),
{
    if !listed_id(list, c.channel_id) {
        assert(with_channel(list, c).last() == c);
    }
}

/// The standing channels are there, every channel that was there stands where it was, and
/// adding them again changes nothing.
pub proof fn standing_channels_are_listed(
    text: Seq<ChannelData>,
    voice: Seq<ChannelData>,
    created_by: Seq<u8>,
    now: u64,
)
    ensures
        ({
            let t = with_standing_text(text, created_by, now);
            let v = with_standing_voice(voice, created_by, now);
            &&& listed_id(t, "general"@)
            &&& listed_id(t, "fallback"@)
            &&& listed_id(v, "voice_general"@)
            &&& forall|i: int| 0 <= i < text.len() ==> t[i] == #[trigger] text[i]
            &&& forall|i: int| 0 <= i < voice.len() ==> v[i] == #[trigger] voice[i]
            &&& with_standing_text(t, created_by, now) == t
            &&& with_standing_voice(v, created_by, now) == v
        }),
{
    let general = standing_channel("general"@, "general"@, created_by, now);
    let fallback = standing_channel("fallback"@, "fallback"@, created_by, now);
    let one = with_channel(text, general);
    let two = with_channel(one, fallback);
    added_is_listed(text, general);
    added_is_listed(one, fallback);
    added_is_listed(voice, standing_channel("voice_general"@, "general"@, created_by, now));
    assert(listed_id(two, "general"@)) by {
        let i = choose|i: int| 0 <= i < one.len() && (#[trigger] one[i]).channel_id == "general"@;
        assert(two[i] == one[i]);
    }
}

fn make_standing_channel(id: &str, name: &str, created_by: &[u8; 32], now: u64) -> (r: Channel)
    ensures
        r@ == standing_channel(id@, name@, created_by@, now),
{
    Channel {
        channel_id: copy(id),
        name: copy(name),
        created_at: now,
        created_by: *created_by,
        deleted: false,
        deleted_at: None,
    }
}

/// Makes sure that a list has the general and the fallback channel.
pub fn ensure_text_channels(list: &mut Vec<Channel>, created_by: &[u8; 32], now: u64)
    ensures
        views(final(list)@) == with_standing_text(views(old(list)@), created_by@, now),
{
    ensure_channel(list, make_standing_channel("general", "general", created_by, now));
    ensure_channel(list, make_standing_channel("fallback", "fallback", created_by, now));
}

/// Makes sure that a list has the voice channel that every group has.
pub fn ensure_voice_channel(list: &mut Vec<Channel>, created_by: &[u8; 32], now: u64)
    ensures
        views(final(list)@) == with_standing_voice(views(old(list)@), created_by@, now),
{
    ensure_channel(list, make_standing_channel("voice_general", "general", created_by, now));
}

/// Whether messages to a channel are shown there: it is listed and live.
pub open spec fn is_open(s: Seq<ChannelData>, id: Seq<char>) -> bool {
    exists|i: int| 0 <= i < s.len() && (#[trigger] s[i]).channel_id == id && !s[i].deleted
}

/// Decides whether a channel is listed and live.
pub fn channel_is_open(list: &Vec<Channel>, id: &str) -> (r: bool)
    ensures
        r == is_open(views(list@), id@),
{
    let mut i: usize = 0;
    while i < list.len()
        invariant
            i <= list@.len(),
            forall|k: int|
                0 <= k < i ==> !((#[trigger] views(list@)[k]).channel_id == id@ && !views(
                    list@,
                )[k].deleted),
        decreases list@.len() - i,
    {
        if same(list[i].channel_id.as_str(), id) && !list[i].deleted {
            assert(views(list@)[i as int].channel_id == id@);
            return true;
        }
        i = i + 1;
    }
    false
}

/// The name of the first channel with an identifier, or `otherwise` if there is none.
pub open spec fn name_of(s: Seq<ChannelData>, id: Seq<char>, otherwise: Seq<char>) -> Seq<char>
    decreases s.len(),
{
    if s.len() == 0 {
        otherwise
    } else if s[0].channel_id == id {
        s[0].name
    } else {
        name_of(s.drop_first(), id, otherwise)
    }
}

/// The name of a channel is that of the first with its identifier.
pub proof fn name_of_is(s: Seq<ChannelData>, id: Seq<char>, otherwise: Seq<char>, i: int)
    requires
        0 <= i <= s.len(),
        forall|k: int| 0 <= k < i ==> (#[trigger] s[k]).channel_id != id,
        i < s.len() ==> s[i].channel_id == id,
    ensures
        name_of(s, id, otherwise) == (if i < s.len() {
            s[i].name
        } else {
            otherwise
        }),
    decreases s.len(),
{
    if i > 0 {
        let t = s.drop_first();
        assert(s[0].channel_id != id);
        assert forall|k: int| 0 <= k < i - 1 implies (#[trigger] t[k]).channel_id != id by {
            assert(t[k] == s[k + 1]);
        }
        name_of_is(t, id, otherwise, i - 1);
    }
}

/// The name of a channel, or another text for a channel that is not listed.
pub fn name_or(list: &Vec<Channel>, id: &str, otherwise: &str) -> (r: String)
    ensures
        r@ == name_of(views(list@), id@, otherwise@),
{
    let at: usize = find(list, id);
    proof {
        name_of_is(views(list@), id@, otherwise@, at as int);
    }
    if at < list.len() {
        copy(list[at].name.as_str())
    } else {
        copy(otherwise)
    }
}

/// The name a channel is shown under.
pub fn display_name(list: &Vec<Channel>, id: &str) -> (r: String)
    ensures
        r@ == name_of(views(list@), id@, id@),
{
    name_or(list, id, id)
}

/// The list with the first channel of an identifier marked as deleted.
pub open spec fn with_deleted(s: Seq<ChannelData>, id: Seq<char>, now: u64) -> Seq<ChannelData>
    decreases s.len(),
{
    if s.len() == 0 {
        s
    } else if s[0].channel_id == id {
        s.update(0, ChannelData { deleted: true, deleted_at: Some(now), ..s[0] })
    } else {
        seq![s[0]] + with_deleted(s.drop_first(), id, now)
    }
}

proof fn with_deleted_is(s: Seq<ChannelData>, id: Seq<char>, now: u64, i: int)
    requires
        0 <= i <= s.len(),
        forall|k: int| 0 <= k < i ==> (#[trigger] s[k]).channel_id != id,
        i < s.len() ==> s[i].channel_id == id,
    ensures
        with_deleted(s, id, now) == (if i < s.len() {
            s.update(i, ChannelData { deleted: true, deleted_at: Some(now), ..s[i] })
        } else {
            s
        }),
    decreases s.len(),
{
    if i > 0 {
        let t = s.drop_first();
        assert(s[0].channel_id != id);
        assert forall|k: int| 0 <= k < i - 1 implies (#[trigger] t[k]).channel_id != id by {
            assert(t[k] == s[k + 1]);
        }
        with_deleted_is(t, id, now, i - 1);
        if i < s.len() {
            let c = ChannelData { deleted: true, deleted_at: Some(now), ..s[i] };
            assert(t[i - 1] == s[i]);
            assert(seq![s[0]] + t.update(i - 1, c) =~= s.update(i, c));
        } else {
            assert(seq![s[0]] + t =~= s);
        }
    }
}

/// Deleting a channel takes none out of the list: it marks the first with the identifier, and
/// changes nothing else of it, nor any other channel.
pub proof fn deleting_marks_one_channel(s: Seq<ChannelData>, id: Seq<char>, now: u64)
    ensures
        with_deleted(s, id, now).len() == s.len(),
        forall|k: int|
            0 <= k < s.len() && s[k].channel_id != id ==> with_deleted(s, id, now)[k]
                == #[trigger] s[k],
        forall|k: int|
            0 <= k < s.len() && (#[trigger] s[k]).channel_id == id && (forall|j: int|
                0 <= j < k ==> (#[trigger] s[j]).channel_id != id) ==> with_deleted(s, id, now)[k]
                == (ChannelData { deleted: true, deleted_at: Some(now), ..s[k] }),
    decreases s.len(),
{
    if s.len() > 0 && s[0].channel_id != id {
        let t = s.drop_first();
        deleting_marks_one_channel(t, id, now);
        assert forall|k: int| 0 <= k < s.len() && s[k].channel_id != id implies with_deleted(
            s,
            id,
            now,
        )[k] == #[trigger] s[k] by {
            if k > 0 {
                assert(t[k - 1] == s[k]);
            }
        }
        assert forall|k: int|
            0 <= k < s.len() && (#[trigger] s[k]).channel_id == id && (forall|j: int|
                0 <= j < k ==> (#[trigger] s[j]).channel_id != id) implies with_deleted(s, id, now)[k]
            == (ChannelData { deleted: true, deleted_at: Some(now), ..s[k] }) by {
            assert(t[k - 1] == s[k]);
            assert forall|j: int| 0 <= j < k - 1 implies (#[trigger] t[j]).channel_id != id by {
                assert(t[j] == s[j + 1]);
            }
        }
    }
}

/// Marks a channel as deleted; the mark tells the other members. The answer is the name
/// that the channel had; there is none if it is not listed.
pub fn delete_channel(list: &mut Vec<Channel>, id: &str, now: u64) -> (r: String)
    ensures
        views(final(list)@) == with_deleted(views(old(list)@), id@, now),
        r@ == name_of(views(old(list)@), id@, seq![]),
{
    let ghost before = views(list@);
    let at: usize = find(list, id);
    proof {
        with_deleted_is(before, id@, now, at as int);
        name_of_is(before, id@, seq![], at as int);
    }
    if at < list.len() {
        let name = copy(list[at].name.as_str());
        let c = Channel {
            channel_id: copy(list[at].channel_id.as_str()),
            name: copy(list[at].name.as_str()),
            created_at: list[at].created_at,
            created_by: list[at].created_by,
            deleted: true,
            deleted_at: Some(now),
        };
        list.set(at, c);
        assert(views(list@) =~= before.update(
            at as int,
            ChannelData { deleted: true, deleted_at: Some(now), ..before[at as int] },
        ));
        name
    } else {
        String::new()
    }
}

/// The name that a new channel gets for what the user typed: lower case, with hyphens
/// for spaces.
pub open spec fn channel_name(typed: Seq<char>) -> Seq<char> {
    swapped(lowercase(trimmed(typed)), ' ', '-')
}

/// Makes a new channel, unless nothing but white space was typed.
pub fn new_channel(typed: &str, channel_id: String, created_by: [u8; 32], now: u64) -> (r: Option<
    Channel,
>)
    ensures
        r is Some <==> trimmed(typed@).len() > 0,
        r matches Some(c) ==> c@ == (ChannelData {
            channel_id: channel_id@,
            name: channel_name(typed@),
            created_at: now,
            created_by: created_by@,
            deleted: false,
            deleted_at: None,
        }),
{
    let t = trim(typed);
    if t.as_str().is_empty() {
        None
    } else {
        let low = to_lowercase(t.as_str());
        let name = swap_char(low.as_str(), ' ', '-');
        Some(
            Channel { channel_id, name, created_at: now, created_by, deleted: false, deleted_at: None },
        )
    }
}

/// Whether an administrator may delete a text channel: not one that every group has.
pub open spec fn deletable_text(id: Seq<char>) -> bool {
    id != "general"@ && id != "fallback"@
}

/// Whether an administrator may delete a voice channel: not the one that every group has.
pub open spec fn deletable_voice(id: Seq<char>) -> bool {
    id != "voice_general"@
}

/// Decides whether an administrator may delete a text channel.
pub fn text_channel_is_deletable(id: &str) -> (r: bool)
    ensures
        r == deletable_text(id@),
{
    !same(id, "general") && !same(id, "fallback")
}

/// Decides whether an administrator may delete a voice channel.
pub fn voice_channel_is_deletable(id: &str) -> (r: bool)
    ensures
        r == deletable_voice(id@),
{
    !same(id, "voice_general")
}

/// The channel that an incoming group message is stored under: its own if that is open
/// in the group as it is known here, else the fallback channel; its own in a group that
/// is not known.
pub fn effective_channel(known: Option<&Vec<Channel>>, id: &str) -> (r: String)
    ensures
        r@ == (match known {
            Some(list) => if is_open(views(list@), id@) {
                id@
            } else {
                "fallback"@
            },
            None => id@,
        }),
{
    match known {
        Some(list) => {
            if channel_is_open(list, id) {
                copy(id)
            } else {
                copy("fallback")
            }
        },
        None => copy(id),
    }
}

/// Clearing old marks adds no channel.
pub proof fn purging_adds_nothing(m: Map<Seq<char>, ChannelData>, now: u64, id: Seq<char>)
    ensures
        purged(m, now).contains_key(id) ==> m.contains_key(id),
{
}

/// Of the channels with an identifier the last counts, and an identifier that no channel has
/// stands for none.
pub proof fn the_last_channel_counts(s: Seq<ChannelData>, id: Seq<char>, i: int)
    requires
        -1 <= i < s.len(),
        i >= 0 ==> s[i].channel_id == id,
        forall|k: int| i < k < s.len() ==> (#[trigger] s[k]).channel_id != id,
    ensures
        by_id(s).contains_key(id) <==> i >= 0,
        i >= 0 ==> by_id(s)[id] == s[i],
    decreases s.len(),
{
    if s.len() > 0 {
        let head = s.drop_last();
        if i < s.len() - 1 {
            assert(s[s.len() - 1].channel_id != id);
            assert forall|k: int| i < k < head.len() implies (#[trigger] head[k]).channel_id
                != id by {
                assert(head[k] == s[k]);
            }
            the_last_channel_counts(head, id, i);
        }
    }
}

/// Of two copies of a channel one stands as it is: a live local copy gives way, a deleted one
/// stands against a live one, and of two deleted ones the one deleted later stands, the local
/// one where neither was.
pub proof fn the_later_deletion_stands(local: ChannelData, remote: ChannelData)
    ensures
        !local.deleted ==> winner(local, remote) == remote,
        local.deleted && !remote.deleted ==> winner(local, remote) == local,
        local.deleted && remote.deleted && remote.deleted_at is None ==> winner(local, remote)
            == local,
        local.deleted && remote.deleted && remote.deleted_at is Some && local.deleted_at is Some
            ==> winner(local, remote) == (if remote.deleted_at.unwrap()
            > local.deleted_at.unwrap() {
            remote
        } else {
            local
        }),
        local.deleted && remote.deleted && remote.deleted_at is Some && local.deleted_at is None
            ==> winner(local, remote) == (if remote.deleted_at.unwrap() > 0 {
            remote
        } else {
            local
        }),
{
}

/// Merging in one more channel settles that channel against the copy there was, takes it as it
/// is where there was none, and leaves every other channel as it was.
pub proof fn merging_settles_one_channel(
    m: Map<Seq<char>, ChannelData>,
    remote: Seq<ChannelData>,
    r: ChannelData,
    id: Seq<char>,
)
    ensures
        merge_all(m, seq![]) == m,
        ({
            let before = merge_all(m, remote);
            let after = merge_all(m, remote.push(r));
            &&& after.contains_key(r.channel_id)
            &&& !before.contains_key(r.channel_id) ==> after[r.channel_id] == r
            &&& before.contains_key(r.channel_id) ==> after[r.channel_id] == winner(
                before[r.channel_id],
                r,
            )
            &&& id != r.channel_id ==> after.contains_key(id) == before.contains_key(id)
                && after[id] == before[id]
        }),
{
    assert(remote.push(r).drop_last() =~= remote);
}

/// The messages of a channel are moved exactly when a merge takes it from live to deleted,
/// under its identifier and the name it had here, in the order in which that happens.
pub proof fn channels_that_go_are_moved(
    m: Map<Seq<char>, ChannelData>,
    remote: Seq<ChannelData>,
    r: ChannelData,
)
    ensures
        migrations(m, seq![]).len() == 0,
        ({
            let there = merge_all(m, remote);
            let before = migrations(m, remote);
            let after = migrations(m, remote.push(r));
            let goes = there.contains_key(r.channel_id) && !there[r.channel_id].deleted
                && r.deleted;
            &&& !goes ==> after == before
            &&& goes ==> {
                &&& after.len() == before.len() + 1
                &&& after.drop_last() == before
                &&& after.last().channel_id == r.channel_id
                &&& after.last().name == there[r.channel_id].name
            }
        }),
{
    assert(remote.push(r).drop_last() =~= remote);
    let one = MigrationData {
        channel_id: r.channel_id,
        name: merge_all(m, remote)[r.channel_id].name,
    };
    assert(migrations(m, remote).push(one).drop_last() =~= migrations(m, remote));
}

/// The sender of a copy need not be told exactly if both lists are as long, and each merged
/// channel is in the copy, deleted in both or in neither.
pub proof fn equal_lists_do_not_differ(merged: Seq<ChannelData>, received: Seq<ChannelData>)
    ensures
        !differs(merged, received) <==> merged.len() == received.len() && forall|i: int|
            0 <= i < merged.len() ==> exists|j: int|
                0 <= j < received.len() && (#[trigger] received[j]).channel_id == (
                #[trigger] merged[i]).channel_id && received[j].deleted == merged[i].deleted,
        !differs(merged, merged),
{
    assert forall|i: int| 0 <= i < merged.len() implies !unmatched(#[trigger] merged[i], merged) by {
        assert(merged[i].channel_id == merged[i].channel_id);
    }
    if !differs(merged, received) {
        assert forall|i: int| 0 <= i < merged.len() implies exists|j: int|
            0 <= j < received.len() && (#[trigger] received[j]).channel_id == (
            #[trigger] merged[i]).channel_id && received[j].deleted == merged[i].deleted by {
            assert(!unmatched(merged[i], received));
        }
    }
}

/// A channel goes behind the others exactly if none has its identifier.
pub proof fn new_channels_go_last(s: Seq<ChannelData>, c: ChannelData)
    ensures
        (exists|i: int| 0 <= i < s.len() && (#[trigger] s[i]).channel_id == c.channel_id)
            ==> with_channel(s, c) == s,
        (forall|i: int| 0 <= i < s.len() ==> (#[trigger] s[i]).channel_id != c.channel_id) ==> {
            &&& with_channel(s, c).len() == s.len() + 1
            &&& with_channel(s, c).last() == c
            &&& with_channel(s, c).drop_last() == s
        },
{
    assert(s.push(c).drop_last() =~= s);
}

/// What is added for a group to have its standing channels are those alone: live, made by its
/// founder, and each only where it was missing.
pub proof fn only_standing_channels_are_added(
    text: Seq<ChannelData>,
    voice: Seq<ChannelData>,
    created_by: Seq<u8>,
    now: u64,
)
    ensures
        ({
            let t = with_standing_text(text, created_by, now);
            let v = with_standing_voice(voice, created_by, now);
            &&& t.len() >= text.len()
            &&& v.len() >= voice.len()
            &&& forall|i: int|
                text.len() <= i < t.len() ==> {
                    let c = #[trigger] t[i];
                    &&& c.channel_id == "general"@ || c.channel_id == "fallback"@
                    &&& c.name == c.channel_id
                    &&& !c.deleted
                    &&& c.deleted_at is None
                    &&& c.created_by == created_by
                    &&& c.created_at == now
                    &&& forall|k: int|
                        0 <= k < i ==> (#[trigger] t[k]).channel_id != c.channel_id
                }
            &&& forall|i: int|
                voice.len() <= i < v.len() ==> {
                    let c = #[trigger] v[i];
                    &&& c.channel_id == "voice_general"@
                    &&& c.name == "general"@
                    &&& !c.deleted
                    &&& c.deleted_at is None
                    &&& c.created_by == created_by
                    &&& c.created_at == now
                    &&& forall|k: int|
                        0 <= k < i ==> (#[trigger] v[k]).channel_id != c.channel_id
                }
        }),
{
    let general = standing_channel("general"@, "general"@, created_by, now);
    let one = with_channel(text, general);
    let t = with_standing_text(text, created_by, now);
    assert forall|i: int| 0 <= i < one.len() implies #[trigger] t[i] == one[i] by {
    }
    assert forall|i: int| 0 <= i < text.len() implies #[trigger] one[i] == text[i] by {
    }
}

/// A channel is open exactly if it is listed and live: the last one of the list, or one
/// before.
pub proof fn live_channels_are_open(s: Seq<ChannelData>, c: ChannelData, id: Seq<char>)
    ensures
        !is_open(seq![], id),
        is_open(s.push(c), id) == (is_open(s, id) || (c.channel_id == id && !c.deleted)),
        !listed_id(seq![], id),
        listed_id(s.push(c), id) == (listed_id(s, id) || c.channel_id == id),
{
    let more = s.push(c);
    assert(more[s.len() as int] == c);
    if is_open(s, id) {
        let i = choose|i: int| 0 <= i < s.len() && (#[trigger] s[i]).channel_id == id && !s[i].deleted;
        assert(more[i] == s[i]);
    }
    if listed_id(s, id) {
        let i = choose|i: int| 0 <= i < s.len() && (#[trigger] s[i]).channel_id == id;
        assert(more[i] == s[i]);
    }
    if is_open(more, id) {
        let i = choose|i: int|
            0 <= i < more.len() && (#[trigger] more[i]).channel_id == id && !more[i].deleted;
        if i < s.len() {
            assert(s[i] == more[i]);
        }
    }
    if listed_id(more, id) {
        let i = choose|i: int| 0 <= i < more.len() && (#[trigger] more[i]).channel_id == id;
        if i < s.len() {
            assert(s[i] == more[i]);
        }
    }
}

/// The name of a channel is what was typed, without the space around it and in lower case;
/// only each space within it becomes a hyphen.
pub proof fn channel_names_have_no_spaces(typed: Seq<char>)
    ensures
        ({
            let name = channel_name(typed);
            let plain = lowercase(trimmed(typed));
            &&& name.len() == plain.len()
            &&& forall|i: int|
                0 <= i < name.len() ==> (if plain[i] == ' ' {
                    #[trigger] name[i] == '-'
                } else {
                    name[i] == plain[i]
                })
        }),
{
}

/// Every channel can be deleted but the standing ones.
pub proof fn standing_channels_cannot_be_deleted(id: Seq<char>)
    ensures
        !deletable_text("general"@),
        !deletable_text("fallback"@),
        !deletable_voice("voice_general"@),
        id != "general"@ && id != "fallback"@ ==> deletable_text(id),
        id != "voice_general"@ ==> deletable_voice(id),
{
}

/// In a list without repeats an identifier has one place.
pub proof fn an_identifier_has_one_place(s: Seq<ChannelData>, i: int, j: int)
    requires
        distinct_ids(s),
        0 <= i < s.len(),
        0 <= j < s.len(),
        s[i].channel_id == s[j].channel_id,
    ensures
        i == j,
        by_id(s)[s[i].channel_id] == s[i],
{
    assert forall|k: int| i < k < s.len() implies (#[trigger] s[k]).channel_id
        != s[i].channel_id by {
    }
    the_last_channel_counts(s, s[i].channel_id, i);
}

} // verus!
