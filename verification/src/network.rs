//! Network addresses: reading them from system tools, choosing one, showing them.

use vstd::prelude::*;

use crate::order::{kept_in_order, picks};
use crate::settings::{lists_stay_free_of_repeats, no_repeats, with_added};
use crate::text::{
    before, begins_with, concat, contains, contains_text, copy, find_char, find_char_bounds,
    find_char_is, has_char, lines, listed, pieces, same, second_word, split, split_lines,
    starts_with, strip, stripped, text_before, trim, trimmed, views, word_two,
};

verus! {

/// How far an address reaches.
#[derive(Clone, Copy, PartialEq, Eq, Structural)]
pub enum Scope {
    Global,
    LinkLocal,
    Other,
}

/// An IPv6 address of a network interface.
pub struct NetInterface {
    pub name: String,
    pub ip: String,
    pub scope: Scope,
}

/// An address of an interface as mathematical data.
#[verifier::ext_equal]
pub struct NetInterfaceData {
    pub name: Seq<char>,
    pub ip: Seq<char>,
    pub scope: Scope,
}

impl View for NetInterface {
    type V = NetInterfaceData;

    open spec fn view(&self) -> NetInterfaceData {
        NetInterfaceData { name: self.name@, ip: self.ip@, scope: self.scope }
    }
}

/// Having a scope, as a predicate.
pub open spec fn in_scope(scope: Scope) -> spec_fn(NetInterfaceData) -> bool {
    |x: NetInterfaceData| x.scope == scope
}

/// Addresses with the global ones first, then the link-local ones, then the others;
/// within each of these as they stood.
pub open spec fn by_scope(s: Seq<NetInterfaceData>) -> Seq<NetInterfaceData> {
    s.filter(in_scope(Scope::Global)) + s.filter(in_scope(Scope::LinkLocal)) + s.filter(
        in_scope(Scope::Other),
    )
}

fn push_in_scope(from: &Vec<NetInterface>, scope: Scope, out: &mut Vec<NetInterface>)
    ensures
        views(final(out)@) == views(old(out)@) + views(from@).filter(in_scope(scope)),
{
    let ghost start = views(out@);
    let ghost all = views(from@);
    let mut i: usize = 0;
    proof {
        reveal(Seq::filter);
        assert(all.take(0) =~= Seq::<NetInterfaceData>::empty());
        assert(start + all.take(0).filter(in_scope(scope)) =~= start);
    }
    while i < from.len()
        invariant
            i <= from@.len(),
            all == views(from@),
            views(out@) == start + all.take(i as int).filter(in_scope(scope)),
        decreases from@.len() - i,
    {
        let ghost held = out@;
        if from[i].scope == scope {
            out.push(
                NetInterface {
                    name: copy(from[i].name.as_str()),
                    ip: copy(from[i].ip.as_str()),
                    scope,
                },
            );
        }
        proof {
            reveal(Seq::filter);
            let now = all.take(i + 1);
            assert(now.drop_last() =~= all.take(i as int));
            assert(now.last() == from@[i as int]@);
            if from@[i as int].scope == scope {
                assert(views(out@) =~= views(held).push(from@[i as int]@));
                assert(views(out@) =~= start + now.filter(in_scope(scope)));
            }
        }
        i = i + 1;
    }
    assert(all.take(i as int) =~= all);
}

fn sort_by_scope(from: &Vec<NetInterface>) -> (r: Vec<NetInterface>)
    ensures
        views(r@) == by_scope(views(from@)),
{
    let mut out: Vec<NetInterface> = Vec::new();
    assert(views(out@) =~= Seq::<NetInterfaceData>::empty());
    push_in_scope(from, Scope::Global, &mut out);
    push_in_scope(from, Scope::LinkLocal, &mut out);
    push_in_scope(from, Scope::Other, &mut out);
    assert(views(out@) =~= by_scope(views(from@)));
    out
}

/// What has been read so far: the interface that the next address belongs to, and the
/// addresses found.
#[verifier::ext_equal]
pub struct Reading {
    pub current: Seq<char>,
    pub found: Seq<NetInterfaceData>,
}

/// Nothing read yet.
pub open spec fn nothing_read() -> Reading {
    Reading { current: seq![], found: seq![] }
}

/// The scope that a line of `ip -6 addr show` names.
pub open spec fn named_scope(line: Seq<char>) -> Scope {
    if contains_text(line, "scope global"@) {
        Scope::Global
    } else if contains_text(line, "scope link"@) {
        Scope::LinkLocal
    } else {
        Scope::Other
    }
}

/// The scope that an address has by its prefix.
pub open spec fn prefix_scope(addr: Seq<char>) -> Scope {
    if begins_with(addr, "fe80"@) {
        Scope::LinkLocal
    } else {
        Scope::Global
    }
}

/// The interface that a line of `ip -6 addr show` starts, such as
/// `3: wlp3s0: <BROADCAST`; a part from `@` on does not belong to the name. Other
/// lines keep the interface.
pub open spec fn linux_interface(current: Seq<char>, line: Seq<char>) -> Seq<char> {
    if !begins_with(line, "inet6"@) && contains_text(line, ": <"@) && pieces(line, ':').len() > 1 {
        before(trimmed(pieces(line, ':')[1]), '@')
    } else {
        current
    }
}

/// Whether a line of `ip -6 addr show` gives an address to list: neither a temporary
/// one nor loopback.
pub open spec fn linux_lists(line: Seq<char>) -> bool {
    &&& begins_with(line, "inet6"@)
    &&& !contains_text(line, "temporary"@)
    &&& second_word(line).len() > 0
    &&& before(second_word(line), '/') != "::1"@
}

/// One more line of `ip -6 addr show` read.
pub open spec fn linux_line(r: Reading, raw: Seq<char>) -> Reading {
    let line = trimmed(raw);
    let current = linux_interface(r.current, line);
    Reading {
        current,
        found: if linux_lists(line) {
            r.found.push(
                NetInterfaceData {
                    name: current,
                    ip: before(second_word(line), '/'),
                    scope: named_scope(line),
                },
            )
        } else {
            r.found
        },
    }
}

/// All lines of `ip -6 addr show` read.
pub open spec fn linux_lines(all: Seq<Seq<char>>) -> Reading
    decreases all.len(),
{
    if all.len() == 0 {
        nothing_read()
    } else {
        linux_line(linux_lines(all.drop_last()), all.last())
    }
}

fn scope_named_in(line: &str) -> (r: Scope)
    ensures
        r == named_scope(line@),
{
    if contains(line, "scope global") {
        Scope::Global
    } else if contains(line, "scope link") {
        Scope::LinkLocal
    } else {
        Scope::Other
    }
}

fn scope_of_prefix(addr: &str) -> (r: Scope)
    ensures
        r == prefix_scope(addr@),
{
    if starts_with(addr, "fe80") {
        Scope::LinkLocal
    } else {
        Scope::Global
    }
}

fn read_linux_line(current: &mut String, found: &mut Vec<NetInterface>, raw: &str)
    ensures
        (Reading { current: final(current)@, found: views(final(found)@) }) == linux_line(
            Reading { current: old(current)@, found: views(old(found)@) },
            raw@,
        ),
{
    let line = trim(raw);
    let ghost start = found@;
    if !starts_with(line.as_str(), "inet6") && contains(line.as_str(), ": <") {
        let parts = split(line.as_str(), ':');
        if parts.len() > 1 {
            let name = trim(parts[1].as_str());
            assert(name@ == trimmed(pieces(line@, ':')[1]));
            *current = text_before(name.as_str(), '@');
        }
    }
    if starts_with(line.as_str(), "inet6") && !contains(line.as_str(), "temporary") {
        let word = word_two(line.as_str());
        if !word.as_str().is_empty() {
            let ip = text_before(word.as_str(), '/');
            if !same(ip.as_str(), "::1") {
                let scope = scope_named_in(line.as_str());
                found.push(NetInterface { name: copy(current.as_str()), ip, scope });
                assert(views(found@) =~= views(start).push(found@.last()@));
            }
        }
    }
}

/// Reads the addresses out of the output of `ip -6 addr show`.
pub fn parse_linux(output: &str) -> (r: Vec<NetInterface>)
    ensures
        views(r@) == by_scope(linux_lines(lines(output@)).found),
{
    let all = split_lines(output);
    let ghost ls = views(all@);
    let mut current = String::new();
    let mut found: Vec<NetInterface> = Vec::new();
    let mut i: usize = 0;
    proof {
        assert(ls.take(0) =~= Seq::<Seq<char>>::empty());
        assert(current@ =~= seq![]);
        assert(views(found@) =~= seq![]);
    }
    while i < all.len()
        invariant
            i <= all@.len(),
            ls == views(all@),
            (Reading { current: current@, found: views(found@) }) == linux_lines(ls.take(i as int)),
        decreases all@.len() - i,
    {
        read_linux_line(&mut current, &mut found, all[i].as_str());
        proof {
            let now = ls.take(i + 1);
            assert(now.drop_last() =~= ls.take(i as int));
            assert(now.last() == all@[i as int]@);
        }
        i = i + 1;
    }
    assert(ls.take(i as int) =~= ls);
    sort_by_scope(&found)
}

/// Whether a line of a table of aliases and addresses gives an address to list.
pub open spec fn windows_lists(line: Seq<char>) -> bool {
    &&& line.len() > 0
    &&& pieces(line, ',').len() >= 2
    &&& stripped(pieces(line, ',')[1], '"') != "::1"@
    &&& stripped(pieces(line, ',')[1], '"').len() > 0
}

/// The addresses in the lines of a table of quoted aliases and addresses.
pub open spec fn windows_lines(all: Seq<Seq<char>>) -> Seq<NetInterfaceData>
    decreases all.len(),
{
    if all.len() == 0 {
        seq![]
    } else {
        let line = trimmed(all.last());
        let fields = pieces(line, ',');
        let done = windows_lines(all.drop_last());
        if windows_lists(line) {
            done.push(
                NetInterfaceData {
                    name: stripped(fields[0], '"'),
                    ip: stripped(fields[1], '"'),
                    scope: prefix_scope(stripped(fields[1], '"')),
                },
            )
        } else {
            done
        }
    }
}

/// All lines but the first.
pub open spec fn after_header(all: Seq<Seq<char>>) -> Seq<Seq<char>> {
    if all.len() > 0 {
        all.skip(1)
    } else {
        all
    }
}

/// Reads the addresses out of the comma-separated table that PowerShell prints, with a
/// header line.
pub fn parse_windows(output: &str) -> (r: Vec<NetInterface>)
    ensures
        views(r@) == by_scope(windows_lines(after_header(lines(output@)))),
{
    let all = split_lines(output);
    let ghost ls = after_header(views(all@));
    let mut found: Vec<NetInterface> = Vec::new();
    let mut i: usize = if all.len() > 0 {
        1
    } else {
        0
    };
    let ghost skipped: int = if all@.len() > 0 {
        1
    } else {
        0
    };
    proof {
        assert(ls.take(0) =~= Seq::<Seq<char>>::empty());
        assert(views(found@) =~= seq![]);
    }
    while i < all.len()
        invariant
            skipped == (if all@.len() > 0 {
                1int
            } else {
                0
            }),
            skipped <= i <= all@.len(),
            ls == after_header(views(all@)),
            views(found@) == windows_lines(ls.take(i - skipped)),
        decreases all@.len() - i,
    {
        let ghost start = found@;
        let line = trim(all[i].as_str());
        if !line.as_str().is_empty() {
            let fields = split(line.as_str(), ',');
            if fields.len() >= 2 {
                let name = strip(fields[0].as_str(), '"');
                let ip = strip(fields[1].as_str(), '"');
                assert(name@ == stripped(pieces(line@, ',')[0], '"'));
                assert(ip@ == stripped(pieces(line@, ',')[1], '"'));
                if !same(ip.as_str(), "::1") && !ip.as_str().is_empty() {
                    let scope = scope_of_prefix(ip.as_str());
                    found.push(NetInterface { name, ip, scope });
                    assert(views(found@) =~= views(start).push(found@.last()@));
                }
            }
        }
        proof {
            let now = ls.take(i - skipped + 1);
            assert(now.drop_last() =~= ls.take(i - skipped));
            assert(now.last() == all@[i as int]@);
        }
        i = i + 1;
    }
    assert(ls.take(i - skipped) =~= ls);
    sort_by_scope(&found)
}

/// The interface that a line of `ifconfig` starts: what stands before the colon of a
/// line that is not indented. Other lines keep the interface.
pub open spec fn macos_interface(current: Seq<char>, raw: Seq<char>) -> Seq<char> {
    if !begins_with(raw, "\t"@) && !begins_with(raw, " "@) {
        before(raw, ':')
    } else {
        current
    }
}

/// Whether a line of `ifconfig` gives an address to list: neither deprecated nor
/// temporary, and not loopback.
pub open spec fn macos_lists(current: Seq<char>, line: Seq<char>) -> bool {
    &&& begins_with(line, "inet6"@)
    &&& !contains_text(line, "deprecated"@)
    &&& !contains_text(line, "temporary"@)
    &&& second_word(line).len() > 0
    &&& before(second_word(line), '%') != "::1"@
    &&& current != "lo0"@
}

/// One more line of `ifconfig` read.
pub open spec fn macos_line(r: Reading, raw: Seq<char>) -> Reading {
    let line = trimmed(raw);
    let current = macos_interface(r.current, raw);
    let ip = before(second_word(line), '%');
    Reading {
        current,
        found: if macos_lists(current, line) {
            r.found.push(NetInterfaceData { name: current, ip, scope: prefix_scope(ip) })
        } else {
            r.found
        },
    }
}

/// All lines of `ifconfig` read.
pub open spec fn macos_lines(all: Seq<Seq<char>>) -> Reading
    decreases all.len(),
{
    if all.len() == 0 {
        nothing_read()
    } else {
        macos_line(macos_lines(all.drop_last()), all.last())
    }
}

fn read_macos_line(current: &mut String, found: &mut Vec<NetInterface>, raw: &str)
    ensures
        (Reading { current: final(current)@, found: views(final(found)@) }) == macos_line(
            Reading { current: old(current)@, found: views(old(found)@) },
            raw@,
        ),
{
    let ghost start = found@;
    if !starts_with(raw, "\t") && !starts_with(raw, " ") {
        *current = text_before(raw, ':');
    }
    let line = trim(raw);
    if starts_with(line.as_str(), "inet6") && !contains(line.as_str(), "deprecated") && !contains(
        line.as_str(),
        "temporary",
    ) {
        let word = word_two(line.as_str());
        if !word.as_str().is_empty() {
            let ip = text_before(word.as_str(), '%');
            if !same(ip.as_str(), "::1") && !same(current.as_str(), "lo0") {
                let scope = scope_of_prefix(ip.as_str());
                found.push(NetInterface { name: copy(current.as_str()), ip, scope });
                assert(views(found@) =~= views(start).push(found@.last()@));
            }
        }
    }
}

/// Reads the addresses out of the output of `ifconfig`.
pub fn parse_macos(output: &str) -> (r: Vec<NetInterface>)
    ensures
        views(r@) == by_scope(macos_lines(lines(output@)).found),
{
    let all = split_lines(output);
    let ghost ls = views(all@);
    let mut current = String::new();
    let mut found: Vec<NetInterface> = Vec::new();
    let mut i: usize = 0;
    proof {
        assert(ls.take(0) =~= Seq::<Seq<char>>::empty());
        assert(current@ =~= seq![]);
        assert(views(found@) =~= seq![]);
    }
    while i < all.len()
        invariant
            i <= all@.len(),
            ls == views(all@),
            (Reading { current: current@, found: views(found@) }) == macos_lines(ls.take(i as int)),
        decreases all@.len() - i,
    {
        read_macos_line(&mut current, &mut found, all[i].as_str());
        proof {
            let now = ls.take(i + 1);
            assert(now.drop_last() =~= ls.take(i as int));
            assert(now.last() == all@[i as int]@);
        }
        i = i + 1;
    }
    assert(ls.take(i as int) =~= ls);
    sort_by_scope(&found)
}

/// No address that is listed is loopback, whichever tool it was read from.
pub proof fn listed_addresses_are_not_loopback(all: Seq<Seq<char>>, i: int)
    ensures
        0 <= i < linux_lines(all).found.len() ==> linux_lines(all).found[i].ip != "::1"@,
        0 <= i < windows_lines(all).len() ==> windows_lines(all)[i].ip != "::1"@,
        0 <= i < macos_lines(all).found.len() ==> macos_lines(all).found[i].ip != "::1"@,
    decreases all.len(),
{
    if all.len() > 0 {
        listed_addresses_are_not_loopback(all.drop_last(), i);
    }
}

/// Whether an address may be offered: it is on the wanted adapter, where one is
/// wanted, and not loopback.
pub open spec fn usable(adapter: Seq<char>, x: NetInterfaceData) -> bool {
    (adapter.len() == 0 || x.name == adapter) && x.ip != "::1"@
}

/// Being an address that may be offered, as a predicate.
pub open spec fn usable_on(adapter: Seq<char>) -> spec_fn(NetInterfaceData) -> bool {
    |x: NetInterfaceData| usable(adapter, x)
}

/// Being a global address that may be offered, as a predicate.
pub open spec fn global_on(adapter: Seq<char>) -> spec_fn(NetInterfaceData) -> bool {
    |x: NetInterfaceData| usable(adapter, x) && x.scope == Scope::Global
}

/// The address to offer: the first global one that may be offered, else the first that
/// may, else loopback.
pub open spec fn best_ipv6(all: Seq<NetInterfaceData>, adapter: Seq<char>) -> Seq<char> {
    let global = all.filter(global_on(adapter));
    let any = all.filter(usable_on(adapter));
    if global.len() > 0 {
        global[0].ip
    } else if any.len() > 0 {
        any[0].ip
    } else {
        "::1"@
    }
}

proof fn filter_first(
    s: Seq<NetInterfaceData>,
    p: spec_fn(NetInterfaceData) -> bool,
    i: int,
)
    requires
        0 <= i <= s.len(),
        forall|k: int| 0 <= k < i ==> !p(#[trigger] s[k]),
        i < s.len() ==> p(s[i]),
    ensures
        i < s.len() ==> s.filter(p).len() > 0 && s.filter(p)[0] == s[i],
        i == s.len() ==> s.filter(p).len() == 0,
    decreases s.len(),
{
    reveal(Seq::filter);
    if s.len() > 0 {
        let head = s.drop_last();
        if i < s.len() - 1 {
            assert(head[i] == s[i]);
            filter_first(head, p, i);
        } else {
            filter_first(head, p, head.len() as int);
        }
    }
}

/// The best address to offer, on one adapter or on any.
pub fn get_best_ipv6(all: &Vec<NetInterface>, adapter: &str) -> (r: String)
    ensures
        r@ == best_ipv6(views(all@), adapter@),
{
    let ghost s = views(all@);
    let mut first: Option<usize> = None;
    let mut i: usize = 0;
    while i < all.len()
        invariant
            i <= all@.len(),
            s == views(all@),
            forall|k: int| 0 <= k < i ==> !global_on(adapter@)(#[trigger] s[k]),
            first is None ==> forall|k: int| 0 <= k < i ==> !usable_on(adapter@)(#[trigger] s[k]),
            first matches Some(j) ==> j < i && usable_on(adapter@)(s[j as int]) && forall|k: int|
                0 <= k < j ==> !usable_on(adapter@)(#[trigger] s[k]),
        decreases all@.len() - i,
    {
        let x = &all[i];
        assert(s[i as int] == x@);
        if (adapter.is_empty() || same(x.name.as_str(), adapter)) && !same(x.ip.as_str(), "::1") {
            if x.scope == Scope::Global {
                proof {
                    filter_first(s, global_on(adapter@), i as int);
                }
                return copy(x.ip.as_str());
            }
            if first.is_none() {
                first = Some(i);
            }
        }
        i = i + 1;
    }
    proof {
        filter_first(s, global_on(adapter@), i as int);
    }
    match first {
        Some(j) => {
            proof {
                filter_first(s, usable_on(adapter@), j as int);
            }
            copy(all[j].ip.as_str())
        },
        None => {
            proof {
                filter_first(s, usable_on(adapter@), i as int);
            }
            copy("::1")
        },
    }
}

/// The address offered is loopback only where no other may be offered, and a global
/// one wherever there is one.
pub proof fn best_ipv6_prefers_global(all: Seq<NetInterfaceData>, adapter: Seq<char>, i: int)
    requires
        0 <= i < all.len(),
        usable(adapter, all[i]),
    ensures
        best_ipv6(all, adapter) != "::1"@,
        all[i].scope == Scope::Global ==> exists|k: int|
            0 <= k < all.len() && (#[trigger] all[k]).scope == Scope::Global && all[k].ip == best_ipv6(
                all,
                adapter,
            ),
{
    broadcast use vstd::seq_lib::group_filter_ensures;

    let global = all.filter(global_on(adapter));
    let any = all.filter(usable_on(adapter));
    all.lemma_filter_contains(usable_on(adapter), i);
    assert(any.contains(all[i]));
    assert(usable_on(adapter)(any[0]));
    if global.len() > 0 {
        assert(global_on(adapter)(global[0]));
        filter_member(all, global_on(adapter), 0);
    }
    if all[i].scope == Scope::Global {
        all.lemma_filter_contains(global_on(adapter), i);
        assert(global.contains(all[i]));
    }
}

proof fn filter_member(s: Seq<NetInterfaceData>, p: spec_fn(NetInterfaceData) -> bool, i: int)
    requires
        0 <= i < s.filter(p).len(),
    ensures
        exists|k: int| 0 <= k < s.len() && #[trigger] s[k] == s.filter(p)[i],
    decreases s.len(),
{
    reveal(Seq::filter);
    if s.len() > 0 {
        let head = s.drop_last();
        if i < head.filter(p).len() {
            filter_member(head, p, i);
            let k = choose|k: int| 0 <= k < head.len() && #[trigger] head[k] == head.filter(p)[i];
            assert(s[k] == s.filter(p)[i]);
        } else {
            assert(s[s.len() - 1] == s.filter(p)[i]);
        }
    }
}

/// Whether an adapter is none that peers could reach: loopback, or one of those that
/// containers make.
pub open spec fn internal_adapter(name: Seq<char>) -> bool {
    name == "lo"@ || begins_with(name, "docker"@) || begins_with(name, "veth"@)
}

/// The names of the adapters, each once, without loopback and container adapters.
pub open spec fn adapter_names(all: Seq<NetInterfaceData>) -> Seq<Seq<char>>
    decreases all.len(),
{
    if all.len() == 0 {
        seq![]
    } else {
        let done = adapter_names(all.drop_last());
        if internal_adapter(all.last().name) {
            done
        } else {
            with_added(done, all.last().name)
        }
    }
}

/// The names of the adapters to choose from.
pub fn get_adapter_names(all: &Vec<NetInterface>) -> (r: Vec<String>)
    ensures
        views(r@) == adapter_names(views(all@)),
{
    let ghost s = views(all@);
    let mut names: Vec<String> = Vec::new();
    let mut i: usize = 0;
    proof {
        assert(s.take(0) =~= Seq::<NetInterfaceData>::empty());
        assert(views(names@) =~= seq![]);
    }
    while i < all.len()
        invariant
            i <= all@.len(),
            s == views(all@),
            views(names@) == adapter_names(s.take(i as int)),
        decreases all@.len() - i,
    {
        let ghost start = names@;
        let name = all[i].name.as_str();
        if !same(name, "lo") && !starts_with(name, "docker") && !starts_with(name, "veth")
            && !listed(&names, name) {
            names.push(copy(name));
            assert(views(names@) =~= views(start).push(name@));
        }
        proof {
            let now = s.take(i + 1);
            assert(now.drop_last() =~= s.take(i as int));
            assert(now.last() == all@[i as int]@);
        }
        i = i + 1;
    }
    assert(s.take(i as int) =~= s);
    names
}

/// No adapter is offered twice, and no internal one is.
pub proof fn adapter_names_are_distinct(all: Seq<NetInterfaceData>)
    ensures
        no_repeats(adapter_names(all)),
        forall|i: int|
            0 <= i < adapter_names(all).len() ==> !internal_adapter(
                #[trigger] adapter_names(all)[i],
            ),
    decreases all.len(),
{
    if all.len() > 0 {
        adapter_names_are_distinct(all.drop_last());
        lists_stay_free_of_repeats(adapter_names(all.drop_last()), all.last().name);
    }
}

/// How a peer is shown: the nickname with the fingerprint behind it, or only the
/// fingerprint of a peer without a nickname.
pub open spec fn peer_display(nickname: Seq<char>, fingerprint: Seq<char>) -> Seq<char> {
    if nickname.len() == 0 {
        fingerprint
    } else {
        nickname + " #"@ + fingerprint
    }
}

/// How a peer is shown.
pub fn format_peer_display(nickname: &str, fingerprint: &str) -> (r: String)
    ensures
        r@ == peer_display(nickname@, fingerprint@),
{
    if nickname.is_empty() {
        copy(fingerprint)
    } else {
        let head = concat(nickname, " #");
        concat(head.as_str(), fingerprint)
    }
}

/// An address with all but its first group masked.
pub open spec fn censored(ip: Seq<char>) -> Seq<char> {
    if ip == "::1"@ || ip.len() == 0 {
        ip
    } else if has_char(ip, ':') {
        before(ip, ':') + ":****"@
    } else if has_char(ip, '.') {
        before(ip, '.') + ".***.***"@
    } else {
        "****"@
    }
}

fn has(s: &str, c: char) -> (r: bool)
    ensures
        r == has_char(s@, c),
{
    let parts = text_before(s, c);
    proof {
        find_char_bounds(s@, c);
        if !has_char(s@, c) {
            assert(before(s@, c) =~= s@);
        }
        assert(before(s@, c).len() == find_char(s@, c));
    }
    !same(parts.as_str(), s)
}

/// Masks all of an address but its first group.
pub fn censor_ip(ip: &str) -> (r: String)
    ensures
        r@ == censored(ip@),
{
    if same(ip, "::1") || ip.is_empty() {
        copy(ip)
    } else if has(ip, ':') {
        concat(text_before(ip, ':').as_str(), ":****")
    } else if has(ip, '.') {
        concat(text_before(ip, '.').as_str(), ".***.***")
    } else {
        copy("****")
    }
}

/// A masked address tells nothing but its first group: addresses that begin with the
/// same group look the same.
pub proof fn censoring_hides_the_rest(a: Seq<char>, b: Seq<char>)
    requires
        a != "::1"@,
        b != "::1"@,
        has_char(a, ':') && has_char(b, ':') && before(a, ':') == before(b, ':') || (!has_char(
            a,
            ':',
        ) && !has_char(b, ':') && has_char(a, '.') && has_char(b, '.') && before(a, '.') == before(
            b,
            '.',
        )),
    ensures
        censored(a) == censored(b),
{
    find_char_bounds(a, ':');
    find_char_bounds(b, ':');
    find_char_bounds(a, '.');
    find_char_bounds(b, '.');
}

/// Masking a masked address changes nothing.
pub proof fn censoring_twice_is_censoring_once(ip: Seq<char>)
    ensures
        censored(censored(ip)) == censored(ip),
{
    reveal_strlit("::1");
    reveal_strlit(":****");
    reveal_strlit(".***.***");
    reveal_strlit("****");
    find_char_bounds(ip, ':');
    find_char_bounds(ip, '.');
    let r = censored(ip);
    if ip == "::1"@ || ip.len() == 0 {
    } else if has_char(ip, ':') {
        let n = find_char(ip, ':');
        assert(r.last() == '*');
        find_char_is(r, ':', n);
        assert(before(r, ':') =~= before(ip, ':'));
    } else if has_char(ip, '.') {
        let n = find_char(ip, '.');
        assert(r.last() == '*');
        assert forall|k: int| 0 <= k < r.len() implies r[k] != ':' by {
            if k < n {
                assert(r[k] == ip[k]);
            }
        }
        find_char_is(r, ':', r.len() as int);
        find_char_is(r, '.', n);
        assert(before(r, '.') =~= before(ip, '.'));
    } else {
        find_char_is(r, ':', 4);
        find_char_is(r, '.', 4);
    }
}

/// The text of an address and port that peers are reached at.
pub open spec fn socket_text(ip: Seq<char>, port: Seq<char>) -> Seq<char> {
    "["@ + ip + "]:"@ + port
}

/// Writes the address and port of a peer.
pub fn socket_address(ip: &str, port: &str) -> (r: String)
    ensures
        r@ == socket_text(ip@, port@),
{
    let a = concat("[", ip);
    let b = concat(a.as_str(), "]:");
    concat(b.as_str(), port)
}

/// Addresses are listed with the global ones first, then the link-local ones, then the
/// others, each as it is, once, and within its scope in the order it stood in. The answer
/// holds the positions of those of each scope.
pub proof fn addresses_are_listed_by_scope(s: Seq<NetInterfaceData>) -> (src: (
    Seq<int>,
    Seq<int>,
    Seq<int>,
))
    ensures
        picks(src.0, s.len() as int),
        picks(src.1, s.len() as int),
        picks(src.2, s.len() as int),
        by_scope(s).len() == src.0.len() + src.1.len() + src.2.len(),
        forall|i: int|
            0 <= i < src.0.len() ==> by_scope(s)[i] == s[#[trigger] src.0[i]]
                && s[src.0[i]].scope is Global,
        forall|i: int|
            0 <= i < src.1.len() ==> by_scope(s)[src.0.len() + i] == s[#[trigger] src.1[i]]
                && s[src.1[i]].scope is LinkLocal,
        forall|i: int|
            0 <= i < src.2.len() ==> by_scope(s)[src.0.len() + src.1.len() + i]
                == s[#[trigger] src.2[i]] && s[src.2[i]].scope is Other,
        forall|k: int|
            0 <= k < s.len() ==> match (#[trigger] s[k]).scope {
                Scope::Global => src.0.contains(k),
                Scope::LinkLocal => src.1.contains(k),
                Scope::Other => src.2.contains(k),
            },
{
    let a = kept_in_order(s, in_scope(Scope::Global));
    let b = kept_in_order(s, in_scope(Scope::LinkLocal));
    let c = kept_in_order(s, in_scope(Scope::Other));
    (a, b, c)
}

/// The scope of an address is the one that the line names, and by its prefix an address is
/// link-local or global.
pub proof fn scopes_are_named(line: Seq<char>, addr: Seq<char>)
    ensures
        contains_text(line, "scope global"@) ==> named_scope(line) is Global,
        !contains_text(line, "scope global"@) && contains_text(line, "scope link"@) ==> named_scope(
            line,
        ) is LinkLocal,
        !contains_text(line, "scope global"@) && !contains_text(line, "scope link"@)
            ==> named_scope(line) is Other,
        begins_with(addr, "fe80"@) ==> prefix_scope(addr) is LinkLocal,
        !begins_with(addr, "fe80"@) ==> prefix_scope(addr) is Global,
{
}

/// One more line of `ip -6 addr show` adds an address exactly if it is a lasting one and not
/// loopback: under the interface read last, up to the slash, with the scope that it names. A
/// line that starts an interface changes the interface, and no line changes what was found.
pub proof fn linux_lines_give_their_address(all: Seq<Seq<char>>, raw: Seq<char>)
    ensures
        linux_lines(seq![]).found.len() == 0,
        linux_lines(seq![]).current.len() == 0,
        ({
            let before_it = linux_lines(all);
            let after = linux_lines(all.push(raw));
            let line = trimmed(raw);
            let ip = before(second_word(line), '/');
            let address = begins_with(line, "inet6"@);
            let lists = address && !contains_text(line, "temporary"@) && second_word(line).len() > 0
                && ip != "::1"@;
            &&& address ==> after.current == before_it.current
            &&& !address && contains_text(line, ": <"@) && pieces(line, ':').len() > 1
                ==> after.current == before(trimmed(pieces(line, ':')[1]), '@')
            &&& !address && !(contains_text(line, ": <"@) && pieces(line, ':').len() > 1)
                ==> after.current == before_it.current
            &&& !lists ==> after.found == before_it.found
            &&& lists ==> {
                &&& after.found.len() == before_it.found.len() + 1
                &&& after.found.drop_last() == before_it.found
                &&& after.found.last().name == after.current
                &&& after.found.last().ip == ip
                &&& after.found.last().scope == named_scope(line)
            }
        }),
{
    assert(all.push(raw).drop_last() =~= all);
    let after = linux_lines(all.push(raw));
    let line = trimmed(raw);
    let one = NetInterfaceData {
        name: after.current,
        ip: before(second_word(line), '/'),
        scope: named_scope(line),
    };
    assert(linux_lines(all).found.push(one).drop_last() =~= linux_lines(all).found);
}

/// One more line of `ifconfig` adds an address exactly if it is a lasting one, and neither
/// loopback nor on the loopback interface: under the interface read last, up to the percent
/// sign, with the scope of its prefix. A line that is not indented changes the interface, and
/// no line changes what was found.
pub proof fn macos_lines_give_their_address(all: Seq<Seq<char>>, raw: Seq<char>)
    ensures
        macos_lines(seq![]).found.len() == 0,
        macos_lines(seq![]).current.len() == 0,
        ({
            let before_it = macos_lines(all);
            let after = macos_lines(all.push(raw));
            let line = trimmed(raw);
            let ip = before(second_word(line), '%');
            let indented = begins_with(raw, "\t"@) || begins_with(raw, " "@);
            let lists = begins_with(line, "inet6"@) && !contains_text(line, "deprecated"@)
                && !contains_text(line, "temporary"@) && second_word(line).len() > 0 && ip != "::1"@
                && after.current != "lo0"@;
            &&& indented ==> after.current == before_it.current
            &&& !indented ==> after.current == before(raw, ':')
            &&& !lists ==> after.found == before_it.found
            &&& lists ==> {
                &&& after.found.len() == before_it.found.len() + 1
                &&& after.found.drop_last() == before_it.found
                &&& after.found.last().name == after.current
                &&& after.found.last().ip == ip
                &&& after.found.last().scope == prefix_scope(ip)
            }
        }),
{
    assert(all.push(raw).drop_last() =~= all);
    let after = macos_lines(all.push(raw));
    let ip = before(second_word(trimmed(raw)), '%');
    let one = NetInterfaceData { name: after.current, ip, scope: prefix_scope(ip) };
    assert(macos_lines(all).found.push(one).drop_last() =~= macos_lines(all).found);
}

/// One more line of a table of aliases and addresses adds an address exactly if it has two
/// fields, the second of which is neither empty nor loopback once its quotes are gone: the
/// first is the name, and the scope goes by the prefix. The first line of all is a header.
pub proof fn windows_lines_give_their_address(all: Seq<Seq<char>>, raw: Seq<char>)
    ensures
        windows_lines(seq![]).len() == 0,
        ({
            let before_it = windows_lines(all);
            let after = windows_lines(all.push(raw));
            let line = trimmed(raw);
            let fields = pieces(line, ',');
            let ip = stripped(fields[1], '"');
            let lists = line.len() > 0 && fields.len() >= 2 && ip.len() > 0 && ip != "::1"@;
            &&& !lists ==> after == before_it
            &&& lists ==> {
                &&& after.len() == before_it.len() + 1
                &&& after.drop_last() == before_it
                &&& after.last().name == stripped(fields[0], '"')
                &&& after.last().ip == ip
                &&& after.last().scope == prefix_scope(ip)
            }
        }),
        all.len() == 0 ==> after_header(all).len() == 0,
        all.len() > 0 ==> after_header(all) == all.drop_first(),
{
    assert(all.push(raw).drop_last() =~= all);
    let fields = pieces(trimmed(raw), ',');
    let ip = stripped(fields[1], '"');
    let one = NetInterfaceData { name: stripped(fields[0], '"'), ip, scope: prefix_scope(ip) };
    assert(windows_lines(all).push(one).drop_last() =~= windows_lines(all));
    if all.len() > 0 {
        assert(all.skip(1) =~= all.drop_first());
    }
}

/// The address offered is the first global one that is not loopback and on the adapter that is
/// wanted, if one is; else the first that is not loopback and on it; else loopback.
pub proof fn the_first_usable_address_is_offered(
    all: Seq<NetInterfaceData>,
    adapter: Seq<char>,
    i: int,
    j: int,
)
    requires
        0 <= i <= all.len(),
        forall|k: int|
            0 <= k < i ==> !((#[trigger] all[k]).scope is Global && all[k].ip != "::1"@ && (
            adapter.len() == 0 || all[k].name == adapter)),
        i < all.len() ==> all[i].scope is Global && all[i].ip != "::1"@ && (adapter.len() == 0
            || all[i].name == adapter),
        0 <= j <= all.len(),
        forall|k: int|
            0 <= k < j ==> !((#[trigger] all[k]).ip != "::1"@ && (adapter.len() == 0 || all[k].name
                == adapter)),
        j < all.len() ==> all[j].ip != "::1"@ && (adapter.len() == 0 || all[j].name == adapter),
    ensures
        i < all.len() ==> best_ipv6(all, adapter) == all[i].ip,
        i == all.len() && j < all.len() ==> best_ipv6(all, adapter) == all[j].ip,
        j == all.len() ==> best_ipv6(all, adapter) == "::1"@,
{
    assert forall|k: int| 0 <= k < i implies !global_on(adapter)(#[trigger] all[k]) by {
    }
    assert forall|k: int| 0 <= k < j implies !usable_on(adapter)(#[trigger] all[k]) by {
    }
    filter_first(all, global_on(adapter), i);
    filter_first(all, usable_on(adapter), j);
    if j == all.len() && i < all.len() {
        assert(all[i].ip != "::1"@);
    }
}

/// Adapters that peers cannot reach are loopback and those that containers make, and no
/// others.
pub proof fn internal_adapters_are_known_by_name(name: Seq<char>)
    ensures
        internal_adapter("lo"@),
        begins_with(name, "docker"@) || begins_with(name, "veth"@) ==> internal_adapter(name),
        internal_adapter(name) ==> name == "lo"@ || begins_with(name, "docker"@) || begins_with(
            name,
            "veth"@,
        ),
{
}

/// Each adapter that is not internal is offered, in the order in which they are first met, and
/// nothing else is.
pub proof fn every_adapter_is_offered(
    all: Seq<NetInterfaceData>,
    x: NetInterfaceData,
    name: Seq<char>,
)
    ensures
        adapter_names(seq![]).len() == 0,
        adapter_names(all.push(x)).contains(name) <==> adapter_names(all).contains(name) || (name
            == x.name && !internal_adapter(name)),
        internal_adapter(x.name) || adapter_names(all).contains(x.name) ==> adapter_names(
            all.push(x),
        ) == adapter_names(all),
        !internal_adapter(x.name) && !adapter_names(all).contains(x.name) ==> adapter_names(
            all.push(x),
        ) == adapter_names(all).push(x.name),
{
    assert(all.push(x).drop_last() =~= all);
    let names = adapter_names(all);
    let more = names.push(x.name);
    assert(more[names.len() as int] == x.name);
    if names.contains(name) {
        assert(more[names.index_of(name)] == name);
    }
    if more.contains(name) && name != x.name {
        assert(names[more.index_of(name)] == name);
    }
}

/// A peer is shown by nickname with the fingerprint behind it, and by the fingerprint alone
/// where it has no nickname.
pub proof fn peers_are_shown_with_their_fingerprint(nickname: Seq<char>, fingerprint: Seq<char>)
    ensures
        nickname.len() == 0 ==> peer_display(nickname, fingerprint) == fingerprint,
        nickname.len() > 0 ==> {
            let shown = peer_display(nickname, fingerprint);
            let n = nickname.len() as int;
            &&& shown.len() == n + 2 + fingerprint.len()
            &&& shown.take(n) == nickname
            &&& shown[n] == ' '
            &&& shown[n + 1] == '#'
            &&& shown.skip(n + 2) == fingerprint
        },
{
    reveal_strlit(" #");
    let n = nickname.len() as int;
    let shown = nickname + " #"@ + fingerprint;
    assert(shown.take(n) =~= nickname);
    assert(shown.skip(n + 2) =~= fingerprint);
}

/// A masked address shows its first group and no more. Loopback and an empty address need no
/// mask, and one without groups shows nothing.
pub proof fn masked_addresses_show_one_group(ip: Seq<char>)
    ensures
        ip == "::1"@ || ip.len() == 0 ==> censored(ip) == ip,
        ip != "::1"@ && ip.len() > 0 && has_char(ip, ':') ==> censored(ip) == before(ip, ':')
            + ":****"@,
        ip != "::1"@ && ip.len() > 0 && !has_char(ip, ':') && has_char(ip, '.') ==> censored(ip)
            == before(ip, '.') + ".***.***"@,
        ip != "::1"@ && ip.len() > 0 && !has_char(ip, ':') && !has_char(ip, '.') ==> censored(ip)
            == "****"@,
{
}

/// The text that peers are reached at holds the address in brackets, a colon, and the port.
pub proof fn socket_texts_hold_both_parts(ip: Seq<char>, port: Seq<char>)
    ensures
        ({
            let text = socket_text(ip, port);
            let n = ip.len() as int;
            &&& text.len() == n + 3 + port.len()
            &&& text[0] == '['
            &&& text.subrange(1, 1 + n) == ip
            &&& text[1 + n] == ']'
            &&& text[2 + n] == ':'
            &&& text.skip(3 + n) == port
        }),
{
    reveal_strlit("[");
    reveal_strlit("]:");
    let n = ip.len() as int;
    assert(socket_text(ip, port).subrange(1, 1 + n) =~= ip);
    assert(socket_text(ip, port).skip(3 + n) =~= port);
}

} // verus!
