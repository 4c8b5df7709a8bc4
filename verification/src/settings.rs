//! What the user has set, and the block and ban lists.

use vstd::prelude::*;

use crate::identity::{pubkey_hex, Contact, ContactData};
use crate::order::{kept_in_order, picks};
use crate::text::{
    concat, copy, cut, cuttable, first_bytes, hex, listed, parse_port, port_number, same, views,
};

verus! {

/// A list with `x` at its end, unless it is listed already.
pub open spec fn with_added(list: Seq<Seq<char>>, x: Seq<char>) -> Seq<Seq<char>> {
    if list.contains(x) {
        list
    } else {
        list.push(x)
    }
}

/// Being another text than `x`, as a predicate.
pub open spec fn other_than(x: Seq<char>) -> spec_fn(Seq<char>) -> bool {
    |y: Seq<char>| y != x
}

/// A list without any `x`.
pub open spec fn without(list: Seq<Seq<char>>, x: Seq<char>) -> Seq<Seq<char>> {
    list.filter(other_than(x))
}

/// No text is listed twice.
pub open spec fn no_repeats(list: Seq<Seq<char>>) -> bool {
    forall|i: int, j: int| 0 <= i < j < list.len() ==> #[trigger] list[i] != #[trigger] list[j]
}

/// Removing a text leaves a list that does not have it.
pub proof fn without_lacks(list: Seq<Seq<char>>, x: Seq<char>)
    ensures
        !without(list, x).contains(x),
    decreases list.len(),
{
    reveal(Seq::filter);
    if list.len() > 0 {
        without_lacks(list.drop_last(), x);
        let rest = without(list.drop_last(), x);
        if list.last() != x {
            assert(without(list, x) == rest.push(list.last()));
            assert forall|i: int| 0 <= i < rest.push(list.last()).len() implies rest.push(
                list.last(),
            )[i] != x by {
                if i < rest.len() {
                    assert(rest.contains(rest[i]));
                }
            }
        }
    }
}

/// Removing one text keeps every other.
pub proof fn without_keeps_others(list: Seq<Seq<char>>, x: Seq<char>, y: Seq<char>)
    requires
        x != y,
    ensures
        without(list, x).contains(y) == list.contains(y),
    decreases list.len(),
{
    reveal(Seq::filter);
    if list.len() > 0 {
        let head = list.drop_last();
        let last = list.last();
        without_keeps_others(head, x, y);
        assert(list =~= head.push(last));
        let rest = without(head, x);
        if last != x {
            assert(without(list, x) == rest.push(last));
            if rest.contains(y) {
                let i = rest.index_of(y);
                assert(rest.push(last)[i] == y);
            }
            if last == y {
                assert(rest.push(last)[rest.len() as int] == y);
                assert(list[head.len() as int] == y);
            }
            if rest.push(last).contains(y) && last != y {
                let i = choose|i: int| 0 <= i < rest.push(last).len() && rest.push(last)[i] == y;
                assert(rest[i] == y);
            }
        }
        if head.contains(y) {
            let i = head.index_of(y);
            assert(list[i] == y);
        }
        if list.contains(y) && last != y {
            let i = list.index_of(y);
            assert(head[i] == y);
        }
    }
}

proof fn without_absent(list: Seq<Seq<char>>, x: Seq<char>)
    requires
        !list.contains(x),
    ensures
        without(list, x) == list,
    decreases list.len(),
{
    reveal(Seq::filter);
    if list.len() > 0 {
        let head = list.drop_last();
        assert forall|i: int| 0 <= i < head.len() implies head[i] != x by {
            assert(list[i] == head[i]);
        }
        without_absent(head, x);
        assert(list.last() == list[list.len() - 1]);
        assert(list =~= head.push(list.last()));
    }
}

/// Adding a text that was not listed and removing it again gives the list back.
pub proof fn without_undoes_with_added(list: Seq<Seq<char>>, x: Seq<char>)
    requires
        !list.contains(x),
    ensures
        without(with_added(list, x), x) == list,
{
    reveal(Seq::filter);
    without_absent(list, x);
    assert(list.push(x).drop_last() =~= list);
}

/// Adding keeps a list free of repeats, and so does removing.
pub proof fn lists_stay_free_of_repeats(list: Seq<Seq<char>>, x: Seq<char>)
    requires
        no_repeats(list),
    ensures
        no_repeats(with_added(list, x)),
        no_repeats(without(list, x)),
    decreases list.len(),
{
    if !list.contains(x) {
        let r = list.push(x);
        assert forall|i: int, j: int| 0 <= i < j < r.len() implies #[trigger] r[i]
            != #[trigger] r[j] by {
            if j == list.len() {
                assert(list[i] != x);
            }
        }
    }
    reveal(Seq::filter);
    if list.len() > 0 {
        let head = list.drop_last();
        let last = list.last();
        assert forall|i: int, j: int| 0 <= i < j < head.len() implies #[trigger] head[i]
            != #[trigger] head[j] by {
            assert(list[i] == head[i] && list[j] == head[j]);
        }
        lists_stay_free_of_repeats(head, x);
        if last != x {
            let rest = without(head, x);
            assert(without(list, x) == rest.push(last));
            assert(!head.contains(last)) by {
                if head.contains(last) {
                    let i = head.index_of(last);
                    assert(list[i] == list[list.len() - 1]);
                }
            }
            without_keeps_others(head, x, last);
            assert forall|i: int, j: int| 0 <= i < j < rest.push(last).len() implies #[trigger] rest.push(
                last,
            )[i] != #[trigger] rest.push(last)[j] by {
                if j == rest.len() {
                    assert(rest.contains(rest[i]));
                }
            }
        }
    }
}

/// Adds a text to a list unless it is there; says whether it was added.
fn list_text(list: &mut Vec<String>, x: &str) -> (r: bool)
    ensures
        views(final(list)@) == with_added(views(old(list)@), x@),
        r == !views(old(list)@).contains(x@),
{
    if listed(list, x) {
        false
    } else {
        let ghost before = list@;
        list.push(copy(x));
        assert(views(list@) =~= views(before).push(x@));
        true
    }
}

/// Removes a text from a list wherever it stands.
fn drop_all(list: &mut Vec<String>, x: &str)
    ensures
        views(final(list)@) == without(views(old(list)@), x@),
{
    let ghost start = views(list@);
    let mut kept: Vec<String> = Vec::new();
    let mut i: usize = 0;
    proof {
        reveal(Seq::filter);
        assert(start.take(0) =~= Seq::<Seq<char>>::empty());
        assert(views(kept@) =~= Seq::<Seq<char>>::empty());
    }
    while i < list.len()
        invariant
            i <= list@.len(),
            views(list@) == start,
            views(kept@) == without(start.take(i as int), x@),
        decreases list@.len() - i,
    {
        let ghost before = kept@;
        if !same(list[i].as_str(), x) {
            kept.push(copy(list[i].as_str()));
        }
        proof {
            reveal(Seq::filter);
            let now = start.take(i + 1);
            assert(now.drop_last() =~= start.take(i as int));
            assert(now.last() == list@[i as int]@);
            if list@[i as int]@ != x@ {
                assert(views(kept@) =~= views(before).push(list@[i as int]@));
            }
        }
        i = i + 1;
    }
    assert(start.take(i as int) =~= start);
    *list = kept;
}

/// One colour of the theme.
pub struct ThemeColor {
    pub name: String,
    pub rgb: [u8; 3],
}

/// One colour of the theme as mathematical data.
#[verifier::ext_equal]
pub struct ThemeColorData {
    pub name: Seq<char>,
    pub rgb: Seq<u8>,
}

impl View for ThemeColor {
    type V = ThemeColorData;

    open spec fn view(&self) -> ThemeColorData {
        ThemeColorData { name: self.name@, rgb: self.rgb@ }
    }
}

/// The colours with every one named `name` set to `rgb`.
pub open spec fn recolored(
    colors: Seq<ThemeColorData>,
    name: Seq<char>,
    rgb: Seq<u8>,
) -> Seq<ThemeColorData> {
    Seq::new(
        colors.len(),
        |i: int|
            if colors[i].name == name {
                ThemeColorData { name, rgb }
            } else {
                colors[i]
            },
    )
}

/// The colours after every default whose name is not locked was applied.
pub open spec fn reset_colors(
    colors: Seq<ThemeColorData>,
    defaults: Seq<ThemeColorData>,
    locks: Seq<Seq<char>>,
) -> Seq<ThemeColorData>
    decreases defaults.len(),
{
    if defaults.len() == 0 {
        colors
    } else {
        let d = defaults.last();
        let done = reset_colors(colors, defaults.drop_last(), locks);
        if locks.contains(d.name) {
            done
        } else {
            recolored(done, d.name, d.rgb)
        }
    }
}

/// A reset leaves a locked colour as it is, and the names as they are.
pub proof fn reset_respects_locks(
    colors: Seq<ThemeColorData>,
    defaults: Seq<ThemeColorData>,
    locks: Seq<Seq<char>>,
    i: int,
)
    requires
        0 <= i < colors.len(),
    ensures
        reset_colors(colors, defaults, locks).len() == colors.len(),
        reset_colors(colors, defaults, locks)[i].name == colors[i].name,
        locks.contains(colors[i].name) ==> reset_colors(colors, defaults, locks)[i] == colors[i],
    decreases defaults.len(),
{
    if defaults.len() > 0 {
        reset_respects_locks(colors, defaults.drop_last(), locks, i);
    }
}

/// Sets the colours of a name.
pub fn set_by_name(colors: &mut Vec<ThemeColor>, name: &str, rgb: [u8; 3])
    ensures
        views(final(colors)@) == recolored(views(old(colors)@), name@, rgb@),
{
    let ghost start = views(colors@);
    let n: usize = colors.len();
    let mut i: usize = 0;
    while i < n
        invariant
            i <= n == start.len(),
            colors@.len() == n,
            forall|k: int|
                0 <= k < n ==> (#[trigger] colors@[k])@ == (if k < i {
                    recolored(start, name@, rgb@)[k]
                } else {
                    start[k]
                }),
        decreases n - i,
    {
        if same(colors[i].name.as_str(), name) {
            let c = ThemeColor { name: copy(name), rgb };
            colors.set(i, c);
        }
        i = i + 1;
    }
    assert(views(colors@) =~= recolored(start, name@, rgb@));
}

/// Gives every colour that is not locked its default again.
pub fn reset_theme(colors: &mut Vec<ThemeColor>, defaults: &Vec<ThemeColor>, locks: &Vec<String>)
    ensures
        views(final(colors)@) == reset_colors(
            views(old(colors)@),
            views(defaults@),
            views(locks@),
        ),
{
    let ghost start = views(colors@);
    let ghost d = views(defaults@);
    let mut i: usize = 0;
    assert(d.take(0) =~= Seq::<ThemeColorData>::empty());
    while i < defaults.len()
        invariant
            i <= defaults@.len(),
            d == views(defaults@),
            views(colors@) == reset_colors(start, d.take(i as int), views(locks@)),
        decreases defaults@.len() - i,
    {
        if !listed(locks, defaults[i].name.as_str()) {
            set_by_name(colors, defaults[i].name.as_str(), defaults[i].rgb);
        }
        proof {
            let now = d.take(i + 1);
            assert(now.drop_last() =~= d.take(i as int));
            assert(now.last() == defaults@[i as int]@);
        }
        i = i + 1;
    }
    assert(d.take(i as int) =~= d);
}

/// Puts a text on a list, or takes it off if it is listed, as the lock of a colour.
pub fn toggle_listed(locks: &mut Vec<String>, name: &str)
    ensures
        views(final(locks)@) == (if views(old(locks)@).contains(name@) {
            without(views(old(locks)@), name@)
        } else {
            views(old(locks)@).push(name@)
        }),
{
    if listed(locks, name) {
        drop_all(locks, name);
    } else {
        let ghost before = locks@;
        locks.push(copy(name));
        assert(views(locks@) =~= views(before).push(name@));
    }
}

/// What is kept from one run to the next.
pub struct Settings {
    pub nickname: String,
    pub mic: String,
    pub speakers: String,
    pub local_port: String,
    pub network_adapter: String,
    pub blocked: Vec<String>,
    pub banned_ips: Vec<String>,
    pub theme: Vec<ThemeColor>,
    pub firewall_port: String,
    pub muted_groups: Vec<String>,
}

/// The settings as mathematical data.
#[verifier::ext_equal]
pub struct SettingsData {
    pub nickname: Seq<char>,
    pub mic: Seq<char>,
    pub speakers: Seq<char>,
    pub local_port: Seq<char>,
    pub network_adapter: Seq<char>,
    pub blocked: Seq<Seq<char>>,
    pub banned_ips: Seq<Seq<char>>,
    pub theme: Seq<ThemeColorData>,
    pub firewall_port: Seq<char>,
    pub muted_groups: Seq<Seq<char>>,
}

impl View for Settings {
    type V = SettingsData;

    open spec fn view(&self) -> SettingsData {
        SettingsData {
            nickname: self.nickname@,
            mic: self.mic@,
            speakers: self.speakers@,
            local_port: self.local_port@,
            network_adapter: self.network_adapter@,
            blocked: views(self.blocked@),
            banned_ips: views(self.banned_ips@),
            theme: views(self.theme@),
            firewall_port: self.firewall_port@,
            muted_groups: views(self.muted_groups@),
        }
    }
}

impl SettingsData {
    /// These settings with a public key blocked.
    pub open spec fn block(self, key: Seq<char>) -> Self {
        SettingsData { blocked: with_added(self.blocked, key), ..self }
    }

    /// These settings with a public key no longer blocked.
    pub open spec fn unblock(self, key: Seq<char>) -> Self {
        SettingsData { blocked: without(self.blocked, key), ..self }
    }

    /// These settings with an address banned; there is no ban on an empty address.
    pub open spec fn ban(self, ip: Seq<char>) -> Self {
        if ip.len() == 0 {
            self
        } else {
            SettingsData { banned_ips: with_added(self.banned_ips, ip), ..self }
        }
    }

    /// These settings with an address no longer banned.
    pub open spec fn unban(self, ip: Seq<char>) -> Self {
        SettingsData { banned_ips: without(self.banned_ips, ip), ..self }
    }

    /// These settings with each of some addresses banned.
    pub open spec fn ban_each(self, ips: Seq<Seq<char>>) -> Self
        decreases ips.len(),
    {
        if ips.len() == 0 {
            self
        } else {
            self.ban_each(ips.drop_last()).ban(ips.last())
        }
    }

    /// These settings after the block button of a contact was pressed.
    pub open spec fn toggle_block(self, c: ContactData) -> Self {
        if self.blocked.contains(hex(c.pubkey)) {
            if c.last_address.len() > 0 {
                self.unblock(hex(c.pubkey)).unban(c.last_address)
            } else {
                self.unblock(hex(c.pubkey))
            }
        } else {
            self.block(hex(c.pubkey)).ban(c.last_address)
        }
    }
}

/// A list with each of some texts at its end unless it is listed by then.
pub open spec fn with_each(list: Seq<Seq<char>>, more: Seq<Seq<char>>) -> Seq<Seq<char>>
    decreases more.len(),
{
    if more.len() == 0 {
        list
    } else {
        with_added(with_each(list, more.drop_last()), more.last())
    }
}

impl Default for Settings {
    fn default() -> (r: Self)
        ensures
            r@ == (SettingsData {
                nickname: seq![],
                mic: seq![],
                speakers: seq![],
                local_port: seq![],
                network_adapter: seq![],
                blocked: seq![],
                banned_ips: seq![],
                theme: seq![],
                firewall_port: seq![],
                muted_groups: seq![],
            }),
    {
        let r = Settings {
            nickname: String::new(),
            mic: String::new(),
            speakers: String::new(),
            local_port: String::new(),
            network_adapter: String::new(),
            blocked: Vec::new(),
            banned_ips: Vec::new(),
            theme: Vec::new(),
            firewall_port: String::new(),
            muted_groups: Vec::new(),
        };
        assert(views(r.blocked@) =~= seq![]);
        assert(views(r.banned_ips@) =~= seq![]);
        assert(views(r.theme@) =~= seq![]);
        assert(views(r.muted_groups@) =~= seq![]);
        r
    }
}

impl Settings {
    /// The settings as they are at first, with the colors as they are at first.
    pub fn with_theme(theme: Vec<ThemeColor>) -> (r: Self)
        ensures
            r@ == (SettingsData {
                nickname: seq![],
                mic: seq![],
                speakers: seq![],
                local_port: seq![],
                network_adapter: seq![],
                blocked: seq![],
                banned_ips: seq![],
                theme: views(theme@),
                firewall_port: seq![],
                muted_groups: seq![],
            }),
    {
        let mut r = Settings::default();
        r.theme = theme;
        r
    }

    /// Whether a public key, in hexadecimal, is blocked.
    pub fn is_blocked(&self, pubkey_hex: &str) -> (r: bool)
        ensures
            r == self@.blocked.contains(pubkey_hex@),
    {
        listed(&self.blocked, pubkey_hex)
    }

    /// Blocks a public key. The settings are to be saved if this changed them.
    pub fn block_contact(&mut self, pubkey_hex: &str) -> (r: bool)
        ensures
            final(self)@ == old(self)@.block(pubkey_hex@),
            r == !old(self)@.blocked.contains(pubkey_hex@),
    {
        list_text(&mut self.blocked, pubkey_hex)
    }

    /// Unblocks a public key. The settings are to be saved.
    pub fn unblock_contact(&mut self, pubkey_hex: &str)
        ensures
            final(self)@ == old(self)@.unblock(pubkey_hex@),
    {
        drop_all(&mut self.blocked, pubkey_hex);
    }

    /// Bans an address. The settings are to be saved if this changed them.
    pub fn ban_ip(&mut self, ip: &str) -> (r: bool)
        ensures
            final(self)@ == old(self)@.ban(ip@),
            r == (ip@.len() > 0 && !old(self)@.banned_ips.contains(ip@)),
    {
        if ip.is_empty() {
            false
        } else {
            list_text(&mut self.banned_ips, ip)
        }
    }

    /// Lifts the ban on an address. The settings are to be saved.
    pub fn unban_ip(&mut self, ip: &str)
        ensures
            final(self)@ == old(self)@.unban(ip@),
    {
        drop_all(&mut self.banned_ips, ip);
    }

    /// Whether an address is banned.
    pub fn is_ip_banned(&self, ip: &str) -> (r: bool)
        ensures
            r == self@.banned_ips.contains(ip@),
    {
        listed(&self.banned_ips, ip)
    }

    /// Blocks a contact and bans its last address, or takes both back if it is blocked.
    pub fn toggle_block(&mut self, contact: &Contact)
        ensures
            final(self)@ == old(self)@.toggle_block(contact@),
    {
        let key = pubkey_hex(&contact.pubkey);
        if self.is_blocked(key.as_str()) {
            self.unblock_contact(key.as_str());
            if !contact.last_address.as_str().is_empty() {
                self.unban_ip(contact.last_address.as_str());
            }
        } else {
            self.block_contact(key.as_str());
            if !contact.last_address.as_str().is_empty() {
                self.ban_ip(contact.last_address.as_str());
            }
        }
    }

    /// Bans the addresses that the running call banned by itself, and lists every
    /// address that is banned, theirs included.
    pub fn adopt_auto_bans(&mut self, runtime: &Vec<String>) -> (r: Vec<String>)
        ensures
            final(self)@ == old(self)@.ban_each(views(runtime@)),
            views(r@) == with_each(old(self)@.banned_ips, views(runtime@)),
    {
        let ghost start = self@;
        let ghost more = views(runtime@);
        let mut all: Vec<String> = Vec::new();
        let mut k: usize = 0;
        while k < self.banned_ips.len()
            invariant
                k <= self.banned_ips@.len(),
                views(all@) == views(self.banned_ips@).take(k as int),
            decreases self.banned_ips@.len() - k,
        {
            let ghost before = all@;
            all.push(copy(self.banned_ips[k].as_str()));
            k = k + 1;
            proof {
                assert(views(all@) =~= views(before).push(self.banned_ips@[k - 1]@));
                assert(views(self.banned_ips@).take(k as int) =~= views(self.banned_ips@).take(
                    k - 1,
                ).push(self.banned_ips@[k - 1]@));
            }
        }
        assert(views(self.banned_ips@).take(k as int) =~= views(self.banned_ips@));
        assert(more.take(0) =~= Seq::<Seq<char>>::empty());
        let mut i: usize = 0;
        while i < runtime.len()
            invariant
                i <= runtime@.len(),
                more == views(runtime@),
                self@ == start.ban_each(more.take(i as int)),
                views(all@) == with_each(start.banned_ips, more.take(i as int)),
                forall|x: Seq<char>|
                    x.len() > 0 ==> self@.banned_ips.contains(x) == #[trigger] views(all@).contains(
                        x,
                    ),
            decreases runtime@.len() - i,
        {
            let ip = runtime[i].as_str();
            let ghost before = all@;
            let ghost held = self@.banned_ips;
            if !listed(&all, ip) {
                self.ban_ip(ip);
                all.push(copy(ip));
                assert(views(all@) =~= views(before).push(ip@));
            }
            proof {
                let now = more.take(i + 1);
                assert(now.drop_last() =~= more.take(i as int));
                assert(now.last() == ip@);
                assert forall|x: Seq<char>| x.len() > 0 implies self@.banned_ips.contains(x)
                    == #[trigger] views(all@).contains(x) by {
                    assert(held.contains(x) == views(before).contains(x));
                    if !views(before).contains(ip@) {
                        added_member(views(before), ip@, x);
                        if ip@.len() > 0 {
                            assert(held.contains(ip@) == views(before).contains(ip@));
                            added_member(held, ip@, x);
                        }
                    }
                }
            }
            i = i + 1;
        }
        assert(more.take(i as int) =~= more);
        all
    }

    /// Takes over a new port. Where the firewall rule covers another port than the new
    /// one, the answer is the port that it covers, and the user is to be asked.
    pub fn save_port(&mut self, local_port: &str) -> (r: Option<String>)
        ensures
            final(self)@ == (SettingsData { local_port: local_port@, ..old(self)@ }),
            r is Some <==> old(self)@.local_port != local_port@ && local_port@ != old(
                self,
            )@.firewall_port,
            r matches Some(p) ==> p@ == old(self)@.firewall_port,
    {
        let changed = !same(self.local_port.as_str(), local_port);
        self.local_port = copy(local_port);
        if changed && !same(local_port, self.firewall_port.as_str()) {
            Some(copy(self.firewall_port.as_str()))
        } else {
            None
        }
    }

    /// The port to listen on: the one that was set, or 9000.
    pub fn listening_port(&self) -> (r: String)
        ensures
            r@ == (if self@.local_port.len() == 0 {
                "9000"@
            } else {
                self@.local_port
            }),
    {
        if self.local_port.as_str().is_empty() {
            copy("9000")
        } else {
            copy(self.local_port.as_str())
        }
    }

    /// Whether the firewall rule is for another port than the one in use.
    pub fn needs_firewall_prompt(&self, local_port: &str) -> (r: bool)
        ensures
            r == (self@.firewall_port != local_port@),
    {
        !same(self.firewall_port.as_str(), local_port)
    }

    /// Agrees to the firewall prompt: the rule for the first port in the answer is to be
    /// removed, one for the second to be added, where they are port numbers. An empty
    /// `old_port` stands for no rule.
    pub fn confirm_firewall(&mut self, old_port: &str, local_port: &str) -> (r: (
        Option<u16>,
        Option<u16>,
    ))
        ensures
            final(self)@ == (SettingsData { firewall_port: local_port@, ..old(self)@ }),
            r.0 == (if old_port@.len() == 0 {
                None
            } else {
                port_number(old_port@)
            }),
            r.1 == port_number(local_port@),
    {
        let removed = if old_port.is_empty() {
            None
        } else {
            parse_port(old_port)
        };
        let added = parse_port(local_port);
        self.firewall_port = copy(local_port);
        (removed, added)
    }
}

proof fn added_member(list: Seq<Seq<char>>, x: Seq<char>, y: Seq<char>)
    ensures
        with_added(list, x).contains(y) == (list.contains(y) || y == x),
{
    if !list.contains(x) {
        let r = list.push(x);
        if list.contains(y) {
            assert(r[list.index_of(y)] == y);
        }
        if y == x {
            assert(r[list.len() as int] == y);
        }
        if r.contains(y) && y != x {
            assert(list[r.index_of(y)] == y);
        }
    }
}

/// A blocked contact is found blocked, an unblocked one is not, and neither touches
/// any other contact.
pub proof fn blocking_takes_effect(s: SettingsData, key: Seq<char>, other: Seq<char>)
    requires
        other != key,
    ensures
        s.block(key).blocked.contains(key),
        !s.unblock(key).blocked.contains(key),
        s.block(key).blocked.contains(other) == s.blocked.contains(other),
        s.unblock(key).blocked.contains(other) == s.blocked.contains(other),
        s.block(key).block(key) == s.block(key),
{
    added_member(s.blocked, key, key);
    added_member(s.blocked, key, other);
    without_lacks(s.blocked, key);
    without_keeps_others(s.blocked, key, other);
}

/// A banned address is found banned, one whose ban was lifted is not, an empty address
/// cannot be banned, and neither touches any other address.
pub proof fn banning_takes_effect(s: SettingsData, ip: Seq<char>, other: Seq<char>)
    requires
        other != ip,
    ensures
        s.ban(ip).banned_ips.contains(other) == s.banned_ips.contains(other),
        s.unban(ip).banned_ips.contains(other) == s.banned_ips.contains(other),
        ip.len() > 0 ==> s.ban(ip).banned_ips.contains(ip),
        !s.unban(ip).banned_ips.contains(ip),
        ip.len() == 0 ==> s.ban(ip) == s,
        s.ban(ip).ban(ip) == s.ban(ip),
{
    added_member(s.banned_ips, ip, ip);
    added_member(s.banned_ips, ip, other);
    without_lacks(s.banned_ips, ip);
    without_keeps_others(s.banned_ips, ip, other);
}

/// Pressing the block button of a contact twice changes nothing, if its key was not
/// blocked and its address not banned.
pub proof fn toggling_block_twice(s: SettingsData, c: ContactData)
    requires
        !s.blocked.contains(hex(c.pubkey)),
        !s.banned_ips.contains(c.last_address),
    ensures
        s.toggle_block(c).blocked.contains(hex(c.pubkey)),
        s.toggle_block(c).toggle_block(c) == s,
{
    added_member(s.blocked, hex(c.pubkey), hex(c.pubkey));
    without_undoes_with_added(s.blocked, hex(c.pubkey));
    without_undoes_with_added(s.banned_ips, c.last_address);
}

/// The first position of a text in a list, or none.
pub open spec fn position_in(list: Seq<Seq<char>>, x: Seq<char>) -> Option<int>
    decreases list.len(),
{
    if list.len() == 0 {
        None
    } else if list[0] == x {
        Some(0)
    } else {
        match position_in(list.drop_first(), x) {
            Some(i) => Some(i + 1),
            None => None,
        }
    }
}

/// The position of a text is that of its first occurrence.
pub proof fn position_is(list: Seq<Seq<char>>, x: Seq<char>, i: int)
    requires
        0 <= i <= list.len(),
        forall|k: int| 0 <= k < i ==> list[k] != x,
        i < list.len() ==> list[i] == x,
    ensures
        position_in(list, x) == (if i < list.len() {
            Some(i)
        } else {
            None
        }),
    decreases list.len(),
{
    if list.len() > 0 && list[0] != x {
        let t = list.drop_first();
        assert forall|k: int| 0 <= k < i - 1 implies t[k] != x by {
            assert(t[k] == list[k + 1]);
        }
        position_is(t, x, i - 1);
    }
}

/// The device to select: the first with the saved name, or the first of all if none
/// was saved or it is gone.
pub fn device_index(names: &Vec<String>, saved: &str) -> (r: usize)
    ensures
        r == (if saved@.len() == 0 {
            0
        } else {
            match position_in(views(names@), saved@) {
                Some(i) => i,
                None => 0,
            }
        }),
{
    if saved.is_empty() {
        return 0;
    }
    let mut i: usize = 0;
    while i < names.len()
        invariant
            i <= names@.len(),
            saved@.len() > 0,
            forall|k: int| 0 <= k < i ==> views(names@)[k] != saved@,
        decreases names@.len() - i,
    {
        if same(names[i].as_str(), saved) {
            proof {
                position_is(views(names@), saved@, i as int);
            }
            return i;
        }
        i = i + 1;
    }
    proof {
        position_is(views(names@), saved@, i as int);
    }
    0
}

/// The name of a device, or nothing if there is no such device.
pub open spec fn name_at(names: Seq<Seq<char>>, i: int) -> Seq<char> {
    if 0 <= i < names.len() {
        names[i]
    } else {
        seq![]
    }
}

/// The name of the selected device, as it is saved.
pub fn device_name(names: &Vec<String>, index: usize) -> (r: String)
    ensures
        r@ == name_at(views(names@), index as int),
{
    if index < names.len() {
        copy(names[index].as_str())
    } else {
        String::new()
    }
}

/// A line of the list of blocked contacts.
pub struct BlockedRow {
    pub nickname: String,
    pub fingerprint: String,
    pub ip: String,
}

/// Whether a contact is the first whose public key has this hexadecimal.
pub open spec fn first_with_hex(contacts: Seq<ContactData>, key: Seq<char>, i: int) -> bool {
    &&& 0 <= i < contacts.len()
    &&& hex(contacts[i].pubkey) == key
    &&& forall|k: int| 0 <= k < i ==> hex((#[trigger] contacts[k]).pubkey) != key
}

/// What the list of blocked contacts shows for a blocked key: the contact's nickname,
/// fingerprint and last address, or the start of the key if the contact is gone.
pub fn blocked_row(contacts: &Vec<Contact>, key: &str) -> (r: BlockedRow)
    requires
        (forall|i: int| !#[trigger] first_with_hex(views(contacts@), key@, i)) ==> cuttable(
            key@,
            16,
        ),
    ensures
        forall|i: int|
            #[trigger] first_with_hex(views(contacts@), key@, i) ==> r.nickname@
                == contacts@[i].nickname@ && r.fingerprint@ == contacts@[i].fingerprint@ && r.ip@
                == contacts@[i].last_address@,
        (forall|i: int| !#[trigger] first_with_hex(views(contacts@), key@, i)) ==> {
            &&& r.nickname@.len() == 0
            &&& r.ip@.len() == 0
            &&& r.fingerprint@ == cut(key@, 16) + "..."@
        },
{
    let mut i: usize = 0;
    while i < contacts.len()
        invariant
            i <= contacts@.len(),
            forall|k: int| 0 <= k < i ==> hex((#[trigger] views(contacts@)[k]).pubkey) != key@,
        decreases contacts@.len() - i,
    {
        let name = pubkey_hex(&contacts[i].pubkey);
        if same(name.as_str(), key) {
            assert(hex(views(contacts@)[i as int].pubkey) == key@);
            assert forall|j: int| first_with_hex(views(contacts@), key@, j) implies j == i by {
                if j < i {
                    assert(hex(views(contacts@)[j].pubkey) != key@);
                }
            }
            assert(first_with_hex(views(contacts@), key@, i as int));
            return BlockedRow {
                nickname: copy(contacts[i].nickname.as_str()),
                fingerprint: copy(contacts[i].fingerprint.as_str()),
                ip: copy(contacts[i].last_address.as_str()),
            };
        }
        i = i + 1;
    }
    let short = first_bytes(key, 16);
    BlockedRow {
        nickname: String::new(),
        fingerprint: concat(short.as_str(), "..."),
        ip: String::new(),
    }
}

/// A text that is added goes behind the others, which stay as they were, and is not added
/// again.
pub proof fn added_texts_go_last(list: Seq<Seq<char>>, x: Seq<char>)
    ensures
        list.contains(x) ==> with_added(list, x) == list,
        !list.contains(x) ==> {
            &&& with_added(list, x).len() == list.len() + 1
            &&& with_added(list, x).last() == x
            &&& with_added(list, x).drop_last() == list
        },
{
    assert(list.push(x).drop_last() =~= list);
}

/// Removing a text leaves the others as they were and in their order. The answer holds the
/// positions of those that stay.
pub proof fn others_stay_in_order(list: Seq<Seq<char>>, x: Seq<char>) -> (src: Seq<int>)
    ensures
        picks(src, list.len() as int),
        src.len() == without(list, x).len(),
        forall|i: int|
            0 <= i < src.len() ==> without(list, x)[i] == list[#[trigger] src[i]] && list[src[i]]
                != x,
        forall|k: int| 0 <= k < list.len() && #[trigger] list[k] != x ==> src.contains(k),
{
    kept_in_order(list, other_than(x))
}

/// A text is listed after some were added exactly if it was listed before or is one of them,
/// and what was listed stays where it was.
pub proof fn each_is_added(list: Seq<Seq<char>>, more: Seq<Seq<char>>, x: Seq<char>)
    ensures
        with_each(list, more).contains(x) <==> list.contains(x) || more.contains(x),
        with_each(list, more).len() >= list.len(),
        with_each(list, more).take(list.len() as int) == list,
        no_repeats(list) ==> no_repeats(with_each(list, more)),
    decreases more.len(),
{
    assert(list.take(list.len() as int) =~= list);
    if more.len() > 0 {
        let head = more.drop_last();
        each_is_added(list, head, x);
        let before = with_each(list, head);
        added_member(before, more.last(), x);
        if no_repeats(list) {
            lists_stay_free_of_repeats(before, more.last());
        }
        if head.contains(x) {
            assert(more[head.index_of(x)] == x);
        }
        if more.contains(x) && x != more.last() {
            assert(head[more.index_of(x)] == x);
        }
        if x == more.last() {
            assert(more[more.len() - 1] == x);
        }
        assert(with_each(list, more).take(list.len() as int) =~= before.take(list.len() as int));
    }
}

/// Setting a colour changes those of its name, and no other.
pub proof fn one_colour_is_set(
    colors: Seq<ThemeColorData>,
    name: Seq<char>,
    rgb: Seq<u8>,
    i: int,
)
    requires
        0 <= i < colors.len(),
    ensures
        recolored(colors, name, rgb).len() == colors.len(),
        recolored(colors, name, rgb)[i].name == colors[i].name,
        colors[i].name == name ==> recolored(colors, name, rgb)[i].rgb == rgb,
        colors[i].name != name ==> recolored(colors, name, rgb)[i].rgb == colors[i].rgb,
{
}

/// A reset gives a colour that is not locked its default, the last of its name, and leaves one
/// that has no default as it was.
pub proof fn reset_gives_the_default(
    colors: Seq<ThemeColorData>,
    defaults: Seq<ThemeColorData>,
    locks: Seq<Seq<char>>,
    i: int,
    d: int,
)
    requires
        0 <= i < colors.len(),
        !locks.contains(colors[i].name),
        -1 <= d < defaults.len(),
        d >= 0 ==> defaults[d].name == colors[i].name,
        forall|k: int| d < k < defaults.len() ==> (#[trigger] defaults[k]).name != colors[i].name,
    ensures
        d >= 0 ==> reset_colors(colors, defaults, locks)[i].rgb == defaults[d].rgb,
        d < 0 ==> reset_colors(colors, defaults, locks)[i].rgb == colors[i].rgb,
    decreases defaults.len(),
{
    if defaults.len() > 0 {
        let head = defaults.drop_last();
        reset_respects_locks(colors, head, locks, i);
        if d < defaults.len() - 1 {
            assert(defaults[defaults.len() - 1].name != colors[i].name);
            assert forall|k: int| d < k < head.len() implies (#[trigger] head[k]).name
                != colors[i].name by {
                assert(head[k] == defaults[k]);
            }
            reset_gives_the_default(colors, head, locks, i, d);
        }
    }
}

/// Blocking and banning change the list of those blocked or banned, and no other setting.
pub proof fn blocking_changes_nothing_else(s: SettingsData, key: Seq<char>, ip: Seq<char>)
    ensures
        ({
            let after = s.block(key);
            &&& after.blocked == with_added(s.blocked, key)
            &&& after.nickname == s.nickname
            &&& after.mic == s.mic
            &&& after.speakers == s.speakers
            &&& after.local_port == s.local_port
            &&& after.network_adapter == s.network_adapter
            &&& after.banned_ips == s.banned_ips
            &&& after.theme == s.theme
            &&& after.firewall_port == s.firewall_port
            &&& after.muted_groups == s.muted_groups
        }),
        ({
            let after = s.unblock(key);
            &&& after.blocked == without(s.blocked, key)
            &&& after.nickname == s.nickname
            &&& after.mic == s.mic
            &&& after.speakers == s.speakers
            &&& after.local_port == s.local_port
            &&& after.network_adapter == s.network_adapter
            &&& after.banned_ips == s.banned_ips
            &&& after.theme == s.theme
            &&& after.firewall_port == s.firewall_port
            &&& after.muted_groups == s.muted_groups
        }),
        ({
            let after = s.ban(ip);
            &&& ip.len() > 0 ==> after.banned_ips == with_added(s.banned_ips, ip)
            &&& ip.len() == 0 ==> after.banned_ips == s.banned_ips
            &&& after.nickname == s.nickname
            &&& after.mic == s.mic
            &&& after.speakers == s.speakers
            &&& after.local_port == s.local_port
            &&& after.network_adapter == s.network_adapter
            &&& after.blocked == s.blocked
            &&& after.theme == s.theme
            &&& after.firewall_port == s.firewall_port
            &&& after.muted_groups == s.muted_groups
        }),
        ({
            let after = s.unban(ip);
            &&& after.banned_ips == without(s.banned_ips, ip)
            &&& after.nickname == s.nickname
            &&& after.mic == s.mic
            &&& after.speakers == s.speakers
            &&& after.local_port == s.local_port
            &&& after.network_adapter == s.network_adapter
            &&& after.blocked == s.blocked
            &&& after.theme == s.theme
            &&& after.firewall_port == s.firewall_port
            &&& after.muted_groups == s.muted_groups
        }),
{
}

/// Banning several addresses bans each that is not empty, and no other.
pub proof fn each_address_is_banned(s: SettingsData, ips: Seq<Seq<char>>, x: Seq<char>)
    ensures
        s.ban_each(ips).banned_ips.contains(x) <==> s.banned_ips.contains(x) || (x.len() > 0
            && ips.contains(x)),
        ({
            let after = s.ban_each(ips);
            &&& after.nickname == s.nickname
            &&& after.mic == s.mic
            &&& after.speakers == s.speakers
            &&& after.local_port == s.local_port
            &&& after.network_adapter == s.network_adapter
            &&& after.blocked == s.blocked
            &&& after.theme == s.theme
            &&& after.firewall_port == s.firewall_port
            &&& after.muted_groups == s.muted_groups
        }),
    decreases ips.len(),
{
    if ips.len() > 0 {
        let head = ips.drop_last();
        each_address_is_banned(s, head, x);
        added_member(s.ban_each(head).banned_ips, ips.last(), x);
        if head.contains(x) {
            assert(ips[head.index_of(x)] == x);
        }
        if ips.contains(x) && x != ips.last() {
            assert(head[ips.index_of(x)] == x);
        }
        if x == ips.last() {
            assert(ips[ips.len() - 1] == x);
        }
    }
}

/// The block button of a contact blocks one that is not, with its address banned, and frees
/// one that is, with the ban lifted. No other contact or address is touched, and no other
/// setting.
pub proof fn the_block_button_is_for_one_contact(
    s: SettingsData,
    c: ContactData,
    other: Seq<char>,
    other_ip: Seq<char>,
)
    requires
        other != hex(c.pubkey),
        other_ip != c.last_address,
    ensures
        ({
            let after = s.toggle_block(c);
            let was = s.blocked.contains(hex(c.pubkey));
            &&& after.blocked.contains(hex(c.pubkey)) <==> !was
            &&& c.last_address.len() > 0 ==> (after.banned_ips.contains(c.last_address) <==> !was)
            &&& c.last_address.len() == 0 ==> after.banned_ips == s.banned_ips
            &&& after.blocked.contains(other) == s.blocked.contains(other)
            &&& after.banned_ips.contains(other_ip) == s.banned_ips.contains(other_ip)
            &&& after.nickname == s.nickname
            &&& after.mic == s.mic
            &&& after.speakers == s.speakers
            &&& after.local_port == s.local_port
            &&& after.network_adapter == s.network_adapter
            &&& after.theme == s.theme
            &&& after.firewall_port == s.firewall_port
            &&& after.muted_groups == s.muted_groups
        }),
{
    let key = hex(c.pubkey);
    blocking_takes_effect(s, key, other);
    banning_takes_effect(s, c.last_address, other_ip);
    banning_takes_effect(s.unblock(key), c.last_address, other_ip);
    banning_takes_effect(s.block(key), c.last_address, other_ip);
}

/// A device is named by what stands at its position, and one that is not there by nothing.
pub proof fn devices_are_named_by_position(names: Seq<Seq<char>>, i: int)
    ensures
        0 <= i < names.len() ==> name_at(names, i) == names[i],
        i < 0 || i >= names.len() ==> name_at(names, i).len() == 0,
{
}

/// Of the contacts with a key in hexadecimal, one is the first.
pub proof fn one_contact_has_the_key_first(
    contacts: Seq<ContactData>,
    key: Seq<char>,
    i: int,
    j: int,
)
    requires
        first_with_hex(contacts, key, i),
    ensures
        hex(contacts[i].pubkey) == key,
        0 <= j < contacts.len() && hex(contacts[j].pubkey) == key ==> i <= j,
        first_with_hex(contacts, key, j) ==> i == j,
{
    if 0 <= j < i {
        assert(hex(contacts[j].pubkey) != key);
    }
    if first_with_hex(contacts, key, j) && i < j {
        assert(hex(contacts[i].pubkey) != key);
    }
}

} // verus!
