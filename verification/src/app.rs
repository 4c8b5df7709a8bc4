//! The whole state of the client, and what touches more than one part of it.

use vstd::prelude::*;

use crate::call::{
    asks, idle_calls, settings_for_call, sound_allowed, Calls, CallsData, Screen, SetupData,
};
use crate::channels::{
    ensure_text_channels, ensure_voice_channel, listed_id, standing_channels_are_listed,
    with_standing_text, with_standing_voice,
};
use crate::effects::{Action, Effect};
use crate::group::{
    create_group, find_contact, founder, founding_invites, founding_members, invite_members,
    invites_to_added, invites_to_new_group, late_invites, reachable, recruits, with_invited, Group,
    GroupData, Invite, NewGroup, Recipient, RecipientData,
};
use crate::groups::{
    groups_at_start, GroupUnread, GroupUnreadData, GroupView, Groups, GroupsData, NavData,
};
use crate::identity::{Contact, ContactData, Identity};
use crate::messages::{no_messages, viewing, Messages, MessagesData};
use crate::network::{
    adapter_names, best_ipv6, get_adapter_names, get_best_ipv6, socket_address, socket_text,
    NetInterface,
};
use crate::order::{picks, picks_one_more};
use crate::settings::{
    device_index, device_name, name_at, position_in, position_is, Settings, SettingsData,
};
use crate::table::value_or;
use crate::text::{copy, same, trimmed, views};

verus! {

/// Who the user is, as mathematical data.
#[verifier::ext_equal]
pub struct IdentityData {
    pub secret: Seq<u8>,
    pub pubkey: Seq<u8>,
    pub fingerprint: Seq<char>,
}

impl View for Identity {
    type V = IdentityData;

    open spec fn view(&self) -> IdentityData {
        IdentityData {
            secret: self.secret@,
            pubkey: self.pubkey@,
            fingerprint: self.fingerprint@,
        }
    }
}

/// The question whether to change the firewall.
pub struct FirewallPrompt {
    pub shown: bool,
    pub old_port: String,
}

/// The question whether to change the firewall, as mathematical data.
#[verifier::ext_equal]
pub struct FirewallPromptData {
    pub shown: bool,
    pub old_port: Seq<char>,
}

impl View for FirewallPrompt {
    type V = FirewallPromptData;

    open spec fn view(&self) -> FirewallPromptData {
        FirewallPromptData { shown: self.shown, old_port: self.old_port@ }
    }
}

/// The form to create a group.
pub struct GroupForm {
    pub name: String,
    pub selected: Vec<bool>,
}

/// The form to create a group, as mathematical data.
#[verifier::ext_equal]
pub struct GroupFormData {
    pub name: Seq<char>,
    pub selected: Seq<bool>,
}

impl View for GroupForm {
    type V = GroupFormData;

    open spec fn view(&self) -> GroupFormData {
        GroupFormData { name: self.name@, selected: self.selected@ }
    }
}

/// The state of the client.
pub struct HostelApp {
    pub identity: Identity,
    pub settings: Settings,
    pub show_ips: bool,
    pub best_ipv6: String,
    pub adapter_names: Vec<String>,
    pub contacts: Vec<Contact>,
    pub calls: Calls,
    pub messages: Messages,
    pub groups: Groups,
    pub group_unread: GroupUnread,
    pub group_form: GroupForm,
    pub firewall: FirewallPrompt,
}

/// The state of the client as mathematical data.
#[verifier::ext_equal]
pub struct AppData {
    pub identity: IdentityData,
    pub settings: SettingsData,
    pub show_ips: bool,
    pub best_ipv6: Seq<char>,
    pub adapter_names: Seq<Seq<char>>,
    pub contacts: Seq<ContactData>,
    pub calls: CallsData,
    pub messages: MessagesData,
    pub groups: GroupsData,
    pub group_unread: GroupUnreadData,
    pub group_form: GroupFormData,
    pub firewall: FirewallPromptData,
}

impl View for HostelApp {
    type V = AppData;

    open spec fn view(&self) -> AppData {
        AppData {
            identity: self.identity@,
            settings: self.settings@,
            show_ips: self.show_ips,
            best_ipv6: self.best_ipv6@,
            adapter_names: views(self.adapter_names@),
            contacts: views(self.contacts@),
            calls: self.calls@,
            messages: self.messages@,
            groups: self.groups@,
            group_unread: self.group_unread@,
            group_form: self.group_form@,
            firewall: self.firewall@,
        }
    }
}

/// The device to select for a saved name.
pub open spec fn selected_for(names: Seq<Seq<char>>, saved: Seq<char>) -> int {
    if saved.len() == 0 {
        0
    } else {
        match position_in(names, saved) {
            Some(i) => i,
            None => 0,
        }
    }
}

/// The port that is used where none was set.
pub open spec fn port_or_default(port: Seq<char>) -> Seq<char> {
    if port.len() == 0 {
        "9000"@
    } else {
        port
    }
}

/// The contacts with an address that can be read, as recipients; `readable` says of each
/// contact whether the text of its address can.
pub open spec fn reachable_contacts(
    contacts: Seq<ContactData>,
    readable: Seq<bool>,
) -> Seq<RecipientData>
    decreases contacts.len(),
{
    if contacts.len() == 0 {
        seq![]
    } else {
        let c = contacts.last();
        let done = reachable_contacts(contacts.drop_last(), readable);
        if reachable(c.last_address, c.last_port) && readable[contacts.len() - 1] {
            done.push(
                RecipientData {
                    contact_id: c.contact_id,
                    address: socket_text(c.last_address, c.last_port),
                    pubkey: c.pubkey,
                },
            )
        } else {
            done
        }
    }
}

/// The contacts after the first with an identifier moved to another address.
pub open spec fn with_address(
    contacts: Seq<ContactData>,
    id: Seq<char>,
    ip: Seq<char>,
    port: Seq<char>,
) -> Seq<ContactData>
    decreases contacts.len(),
{
    if contacts.len() == 0 {
        contacts
    } else if contacts[0].contact_id == id {
        contacts.update(0, ContactData { last_address: ip, last_port: port, ..contacts[0] })
    } else {
        seq![contacts[0]] + with_address(contacts.drop_first(), id, ip, port)
    }
}

/// The contact that moves is the first with the identifier, and only its address and port
/// change.
pub proof fn with_address_is(
    contacts: Seq<ContactData>,
    id: Seq<char>,
    ip: Seq<char>,
    port: Seq<char>,
    i: int,
)
    requires
        0 <= i <= contacts.len(),
        forall|k: int| 0 <= k < i ==> (#[trigger] contacts[k]).contact_id != id,
        i < contacts.len() ==> contacts[i].contact_id == id,
    ensures
        with_address(contacts, id, ip, port) == (if i < contacts.len() {
            contacts.update(
                i,
                ContactData { last_address: ip, last_port: port, ..contacts[i] },
            )
        } else {
            contacts
        }),
    decreases contacts.len(),
{
    if i > 0 {
        let t = contacts.drop_first();
        assert(contacts[0].contact_id != id);
        assert forall|k: int| 0 <= k < i - 1 implies (#[trigger] t[k]).contact_id != id by {
            assert(t[k] == contacts[k + 1]);
        }
        with_address_is(t, id, ip, port, i - 1);
        if i < contacts.len() {
            let c = ContactData { last_address: ip, last_port: port, ..contacts[i] };
            assert(t[i - 1] == contacts[i]);
            assert(seq![contacts[0]] + t.update(i - 1, c) =~= contacts.update(i, c));
        } else {
            assert(seq![contacts[0]] + t =~= contacts);
        }
    }
}

/// A group with its standing channels.
pub open spec fn with_standing(g: GroupData, now: u64) -> GroupData {
    GroupData {
        text_channels: with_standing_text(g.text_channels, g.created_by, now),
        voice_channels: with_standing_voice(g.voice_channels, g.created_by, now),
        ..g
    }
}

/// A group with its standing channels has each of them, keeps every channel that it had, and
/// does not change when they are added again.
pub proof fn standing_channels_are_there(g: GroupData, now: u64)
    ensures
        ({
            let w = with_standing(g, now);
            &&& listed_id(w.text_channels, "general"@)
            &&& listed_id(w.text_channels, "fallback"@)
            &&& listed_id(w.voice_channels, "voice_general"@)
            &&& forall|i: int|
                0 <= i < g.text_channels.len() ==> w.text_channels[i] == #[trigger] g.text_channels[i]
            &&& forall|i: int|
                0 <= i < g.voice_channels.len() ==> w.voice_channels[i]
                    == #[trigger] g.voice_channels[i]
            &&& with_standing(w, now) == w
        }),
{
    standing_channels_are_listed(g.text_channels, g.voice_channels, g.created_by, now);
}

/// Makes sure that a group has its standing channels. The answer says whether the group is
/// to be saved: it had no text channel, or no voice channel, at all.
pub fn ensure_standing_channels(group: &mut Group, now: u64) -> (r: bool)
    ensures
        final(group)@ == with_standing(old(group)@, now),
        r == (old(group)@.text_channels.len() == 0 || old(group)@.voice_channels.len() == 0),
{
    let had_none = group.text_channels.len() == 0 || group.voice_channels.len() == 0;
    ensure_text_channels(&mut group.text_channels, &group.created_by, now);
    ensure_voice_channel(&mut group.voice_channels, &group.created_by, now);
    had_none
}

/// The settings with the devices chosen for a group call.
pub open spec fn settings_with_devices(s: SettingsData, setup: SetupData) -> SettingsData {
    SettingsData {
        mic: name_at(setup.input_names, setup.selected_input as int),
        speakers: name_at(setup.output_names, setup.selected_output as int),
        ..s
    }
}

fn no_ticks(n: usize) -> (r: Vec<bool>)
    ensures
        r@ == Seq::new(n as nat, |i: int| false),
{
    let mut out: Vec<bool> = Vec::new();
    let mut i: usize = 0;
    while i < n
        invariant
            i <= n,
            out@ == Seq::new(i as nat, |i: int| false),
        decreases n - i,
    {
        out.push(false);
        i = i + 1;
        assert(out@ =~= Seq::new(i as nat, |i: int| false));
    }
    out
}

impl HostelApp {
    /// The state when the program starts. Addresses are hidden until the user asks to see them.
    pub fn new(
        identity: Identity,
        settings: Settings,
        contacts: Vec<Contact>,
        input_names: Vec<String>,
        output_names: Vec<String>,
        groups: Vec<Group>,
        interfaces: &Vec<NetInterface>,
    ) -> (r: Self)
        ensures
            r@.identity == identity@,
            r@.settings == settings@,
            !r@.show_ips,
            r@.best_ipv6 == best_ipv6(views(interfaces@), settings@.network_adapter),
            r@.adapter_names.len() == 0,
            r@.contacts == views(contacts@),
            r@.calls == idle_calls(
                views(input_names@),
                views(output_names@),
                selected_for(views(input_names@), settings@.mic) as usize,
                selected_for(views(output_names@), settings@.speakers) as usize,
                port_or_default(settings@.local_port),
            ),
            r@.messages == no_messages(),
            r@.groups == groups_at_start(views(groups@)),
            r@.group_unread == (GroupUnreadData { groups: Map::empty(), channels: seq![] }),
            r@.group_form == (GroupFormData { name: seq![], selected: seq![] }),
            r@.firewall == (FirewallPromptData {
                shown: settings@.firewall_port != port_or_default(settings@.local_port),
                old_port: seq![],
            }),
    {
        let best = get_best_ipv6(interfaces, settings.network_adapter.as_str());
        let selected_input: usize = device_index(&input_names, settings.mic.as_str());
        let selected_output: usize = device_index(&output_names, settings.speakers.as_str());
        let local_port = settings.listening_port();
        let ask = settings.needs_firewall_prompt(local_port.as_str());
        let calls = Calls::new(
            input_names,
            output_names,
            selected_input,
            selected_output,
            local_port,
        );
        let adapter_names: Vec<String> = Vec::new();
        let selected: Vec<bool> = Vec::new();
        assert(views(adapter_names@) =~= seq![]);
        assert(selected@ =~= seq![]);
        HostelApp {
            identity,
            settings,
            show_ips: false,
            best_ipv6: best,
            adapter_names,
            contacts,
            calls,
            messages: Messages::new(),
            groups: Groups::new(groups),
            group_unread: GroupUnread::new(),
            group_form: GroupForm { name: String::new(), selected },
            firewall: FirewallPrompt { shown: ask, old_port: String::new() },
        }
    }

    /// The contacts to connect to at the start: all whose address is known and can be read.
    /// `readable` says of each contact whether the text that `resolve_peer_addr` gives can.
    /// Where there are none, there is nothing to do.
    pub fn auto_connect(&self, readable: &Vec<bool>) -> (r: Option<Vec<Recipient>>)
        requires
            readable@.len() == self@.contacts.len(),
        ensures
            r is Some <==> reachable_contacts(self@.contacts, readable@).len() > 0,
            r matches Some(to) ==> views(to@) == reachable_contacts(self@.contacts, readable@),
    {
        let ghost cs = views(self.contacts@);
        let mut out: Vec<Recipient> = Vec::new();
        let mut i: usize = 0;
        proof {
            assert(cs.take(0) =~= Seq::<ContactData>::empty());
            assert(views(out@) =~= Seq::<RecipientData>::empty());
        }
        while i < self.contacts.len()
            invariant
                i <= self.contacts@.len(),
                cs == views(self.contacts@),
                readable@.len() == cs.len(),
                views(out@) == reachable_contacts(cs.take(i as int), readable@),
            decreases self.contacts@.len() - i,
        {
            let ghost before = out@;
            let c = &self.contacts[i];
            if !c.last_address.as_str().is_empty() && !c.last_port.as_str().is_empty()
                && readable[i] {
                out.push(
                    Recipient {
                        contact_id: copy(c.contact_id.as_str()),
                        address: socket_address(c.last_address.as_str(), c.last_port.as_str()),
                        pubkey: c.pubkey,
                    },
                );
                assert(views(out@) =~= views(before).push(out@.last()@));
            }
            proof {
                let now = cs.take(i + 1);
                assert(now.drop_last() =~= cs.take(i as int));
                assert(now.last() == self.contacts@[i as int]@);
            }
            i = i + 1;
        }
        assert(cs.take(i as int) =~= cs);
        assert(views(out@).len() == out@.len());
        if out.len() == 0 {
            None
        } else {
            Some(out)
        }
    }

    /// Shows the addresses, or hides them.
    pub fn toggle_ips(&mut self)
        ensures
            final(self)@ == (AppData { show_ips: !old(self)@.show_ips, ..old(self)@ }),
    {
        self.show_ips = !self.show_ips;
    }

    /// Dials the peer that is set up. The answer is the text of its address, and what is to
    /// be done.
    pub fn start_call(&mut self) -> (r: (String, Vec<Action>))
        ensures
            final(self)@ == (AppData {
                calls: old(self)@.calls.dialled(),
                settings: settings_for_call(old(self)@.settings, old(self)@.calls),
                ..old(self)@
            }),
            r.0@ == socket_text(
                old(self)@.calls.setup.peer_ip,
                old(self)@.calls.setup.peer_port,
            ),
            asks(r.1@, seq![Effect::YieldSocket, Effect::SaveSettings]),
    {
        self.calls.start_call(&mut self.settings)
    }

    /// Joins the call in a voice channel of the shown group. The answer says whether a call
    /// in another channel ended, and what is to be done.
    pub fn start_group_call(&mut self, channel: &str) -> (r: Option<(bool, Vec<Action>)>)
        ensures
            match old(self)@.groups.shown() {
                Some(i) => {
                    let switching = old(self)@.groups.call.channel is Some;
                    &&& r is Some
                    &&& r.unwrap().0 == switching
                    &&& final(self)@ == (AppData {
                        groups: (if switching {
                            old(self)@.groups.call_ended()
                        } else {
                            old(self)@.groups
                        }).call_started(channel@),
                        settings: settings_with_devices(
                            old(self)@.settings,
                            old(self)@.calls.setup,
                        ),
                        ..old(self)@
                    })
                    &&& asks(
                        r.unwrap().1@,
                        (if switching {
                            seq![
                                Effect::StopGroupCall,
                                Effect::CloseGroupHistory,
                                Effect::ReclaimSocket,
                            ]
                        } else {
                            seq![]
                        }) + seq![Effect::YieldSocket, Effect::SaveSettings],
                    )
                },
                None => r is None && final(self)@ == old(self)@,
            },
    {
        let started = self.groups.start_group_call(channel);
        if started.is_some() {
            let setup = &self.calls.setup;
            self.settings.mic = device_name(&setup.input_names, setup.selected_input);
            self.settings.speakers = device_name(&setup.output_names, setup.selected_output);
        }
        started
    }

    /// A message came in. `quiet` says that the last sound is long enough ago.
    pub fn on_message(&mut self, contact_id: &str, text: String, quiet: bool) -> (r: Vec<Action>)
        requires
            value_or(old(self)@.messages.unread, contact_id@, 0) < u32::MAX,
        ensures
            final(self)@ == (AppData {
                messages: old(self)@.messages.counted(old(self)@.calls.tab, contact_id@),
                ..old(self)@
            }),
            asks(
                r@,
                seq![
                    Effect::AppendMessage {
                        contact_id: contact_id@,
                        from_me: false,
                        text: text@,
                        load: true,
                    },
                ] + (if sound_allowed(old(self)@.calls) && quiet && !viewing(
                    old(self)@.messages,
                    old(self)@.calls.tab,
                    contact_id@,
                ) {
                    seq![Effect::PlaySound]
                } else {
                    seq![]
                }),
            ),
    {
        let allowed = match self.calls.screen {
            Screen::InCall => false,
            Screen::Connecting => false,
            Screen::KeyWarning => false,
            _ => true,
        };
        self.messages.on_message(self.calls.tab, allowed, quiet, contact_id, text)
    }

    /// A contact was reached at another address.
    pub fn on_address_update(&mut self, contact_id: &str, ip: &str, port: &str)
        ensures
            final(self)@ == (AppData {
                contacts: with_address(old(self)@.contacts, contact_id@, ip@, port@),
                ..old(self)@
            }),
    {
        let ghost before = views(self.contacts@);
        let at: usize = find_contact(&self.contacts, contact_id);
        proof {
            with_address_is(before, contact_id@, ip@, port@, at as int);
        }
        if at < self.contacts.len() {
            let mut c = self.contacts[at].clone();
            c.last_address = copy(ip);
            c.last_port = copy(port);
            self.contacts.set(at, c);
            assert(views(self.contacts@) =~= before.update(
                at as int,
                ContactData { last_address: ip@, last_port: port@, ..before[at as int] },
            ));
        }
    }

    /// Listens on another adapter, or on any for an empty name. The answer says whether that
    /// is new, and the settings are to be saved.
    pub fn choose_adapter(&mut self, name: &str, interfaces: &Vec<NetInterface>) -> (r: bool)
        ensures
            r == (name@ != old(self)@.settings.network_adapter),
            final(self)@ == (if name@ == old(self)@.settings.network_adapter {
                old(self)@
            } else {
                AppData {
                    settings: SettingsData { network_adapter: name@, ..old(self)@.settings },
                    best_ipv6: best_ipv6(views(interfaces@), name@),
                    ..old(self)@
                }
            }),
    {
        if same(name, self.settings.network_adapter.as_str()) {
            return false;
        }
        self.settings.network_adapter = copy(name);
        self.best_ipv6 = get_best_ipv6(interfaces, name);
        true
    }

    /// Chooses the microphone. The answer says whether that is new, and the settings are to
    /// be saved.
    pub fn choose_input(&mut self, index: usize) -> (r: bool)
        ensures
            r == (index != old(self)@.calls.setup.selected_input),
            final(self)@ == (if index == old(self)@.calls.setup.selected_input {
                old(self)@
            } else {
                AppData {
                    settings: SettingsData {
                        mic: name_at(old(self)@.calls.setup.input_names, index as int),
                        ..old(self)@.settings
                    },
                    calls: CallsData {
                        setup: SetupData { selected_input: index, ..old(self)@.calls.setup },
                        ..old(self)@.calls
                    },
                    ..old(self)@
                }
            }),
    {
        if index == self.calls.setup.selected_input {
            return false;
        }
        self.calls.setup.selected_input = index;
        self.settings.mic = device_name(&self.calls.setup.input_names, index);
        true
    }

    /// Chooses the speakers. The answer says whether that is new, and the settings are to be
    /// saved.
    pub fn choose_output(&mut self, index: usize) -> (r: bool)
        ensures
            r == (index != old(self)@.calls.setup.selected_output),
            final(self)@ == (if index == old(self)@.calls.setup.selected_output {
                old(self)@
            } else {
                AppData {
                    settings: SettingsData {
                        speakers: name_at(old(self)@.calls.setup.output_names, index as int),
                        ..old(self)@.settings
                    },
                    calls: CallsData {
                        setup: SetupData { selected_output: index, ..old(self)@.calls.setup },
                        ..old(self)@.calls
                    },
                    ..old(self)@
                }
            }),
    {
        if index == self.calls.setup.selected_output {
            return false;
        }
        self.calls.setup.selected_output = index;
        self.settings.speakers = device_name(&self.calls.setup.output_names, index);
        true
    }

    /// Takes in the devices and adapters that there are now, and selects the saved devices
    /// among them.
    pub fn refresh_devices(
        &mut self,
        input_names: Vec<String>,
        output_names: Vec<String>,
        interfaces: &Vec<NetInterface>,
    )
        ensures
            final(self)@ == (AppData {
                adapter_names: adapter_names(views(interfaces@)),
                calls: CallsData {
                    setup: SetupData {
                        input_names: views(input_names@),
                        output_names: views(output_names@),
                        selected_input: selected_for(
                            views(input_names@),
                            old(self)@.settings.mic,
                        ) as usize,
                        selected_output: selected_for(
                            views(output_names@),
                            old(self)@.settings.speakers,
                        ) as usize,
                        ..old(self)@.calls.setup
                    },
                    ..old(self)@.calls
                },
                ..old(self)@
            }),
    {
        self.adapter_names = get_adapter_names(interfaces);
        self.calls.setup.selected_input = device_index(&input_names, self.settings.mic.as_str());
        self.calls.setup.selected_output = device_index(
            &output_names,
            self.settings.speakers.as_str(),
        );
        self.calls.setup.input_names = input_names;
        self.calls.setup.output_names = output_names;
    }

    /// Saves the port that was typed, and asks about the firewall where its rule is for
    /// another one. The settings are to be saved.
    pub fn save_port(&mut self)
        ensures
            ({
                let port = old(self)@.calls.setup.local_port;
                let ask = old(self)@.settings.local_port != port && port != old(
                    self,
                )@.settings.firewall_port;
                final(self)@ == (AppData {
                    settings: SettingsData { local_port: port, ..old(self)@.settings },
                    firewall: if ask {
                        FirewallPromptData {
                            shown: true,
                            old_port: old(self)@.settings.firewall_port,
                        }
                    } else {
                        old(self)@.firewall
                    },
                    ..old(self)@
                })
            }),
    {
        match self.settings.save_port(self.calls.setup.local_port.as_str()) {
            Some(old_port) => {
                self.firewall = FirewallPrompt { shown: true, old_port };
            },
            None => {},
        }
    }

    /// Answers the question about the firewall. Agreed to, the answer holds the port whose
    /// rule is to be removed and the one to be opened, where they are port numbers, and the
    /// settings are to be saved.
    pub fn answer_firewall(&mut self, agreed: bool) -> (r: (Option<u16>, Option<u16>))
        ensures
            ({
                let port = old(self)@.calls.setup.local_port;
                let closed = FirewallPromptData { shown: false, old_port: seq![] };
                if agreed {
                    &&& final(self)@ == (AppData {
                        settings: SettingsData { firewall_port: port, ..old(self)@.settings },
                        firewall: closed,
                        ..old(self)@
                    })
                    &&& r.0 == (if old(self)@.firewall.old_port.len() == 0 {
                        None
                    } else {
                        crate::text::port_number(old(self)@.firewall.old_port)
                    })
                    &&& r.1 == crate::text::port_number(port)
                } else {
                    &&& final(self)@ == (AppData { firewall: closed, ..old(self)@ })
                    &&& r == (None::<u16>, None::<u16>)
                }
            }),
    {
        let r = if agreed {
            self.settings.confirm_firewall(
                self.firewall.old_port.as_str(),
                self.calls.setup.local_port.as_str(),
            )
        } else {
            (None, None)
        };
        self.firewall = FirewallPrompt { shown: false, old_port: String::new() };
        r
    }

    /// Opens a group: its general channel is shown, and read.
    pub fn open_group(&mut self, at: usize)
        ensures
            final(self)@ == (AppData {
                groups: GroupsData {
                    nav: old(self)@.groups.nav.opened(at),
                    ..old(self)@.groups
                },
                group_unread: if at < old(self)@.groups.groups.len() {
                    old(self)@.group_unread.seen(
                        old(self)@.groups.groups[at as int].group_id,
                        "general"@,
                    )
                } else {
                    old(self)@.group_unread
                },
                ..old(self)@
            }),
    {
        self.groups.open_group(at);
        if at < self.groups.groups.len() {
            self.group_unread.see(self.groups.groups[at].group_id.as_str(), "general");
        }
    }

    /// What is shown in the groups tab counts as read.
    pub fn see_shown_group(&mut self)
        ensures
            final(self)@ == (match old(self)@.groups.shown() {
                Some(i) => AppData {
                    group_unread: old(self)@.group_unread.seen(
                        old(self)@.groups.groups[i as int].group_id,
                        old(self)@.groups.nav.channel,
                    ),
                    ..old(self)@
                },
                None => old(self)@,
            }),
    {
        match self.groups.nav.detail {
            Some(i) => {
                if i < self.groups.groups.len() {
                    self.group_unread.see(
                        self.groups.groups[i].group_id.as_str(),
                        self.groups.nav.channel.as_str(),
                    );
                }
            },
            None => {},
        }
    }

    /// Goes to the form to create a group, with nothing filled in.
    pub fn go_create(&mut self)
        ensures
            final(self)@ == (AppData {
                groups: GroupsData {
                    nav: NavData { view: GroupView::Create, ..old(self)@.groups.nav },
                    ..old(self)@.groups
                },
                group_form: GroupFormData {
                    name: seq![],
                    selected: Seq::new(old(self)@.contacts.len(), |i: int| false),
                },
                ..old(self)@
            }),
    {
        self.groups.nav.view = GroupView::Create;
        self.group_form = GroupForm { name: String::new(), selected: no_ticks(self.contacts.len()) };
    }

    /// Keeps the ticks in step with the contacts: where their number changed, all are taken
    /// off.
    pub fn fit_ticks(&mut self)
        ensures
            final(self)@ == (if old(self)@.group_form.selected.len() == old(
                self,
            )@.contacts.len() {
                old(self)@
            } else {
                AppData {
                    group_form: GroupFormData {
                        selected: Seq::new(old(self)@.contacts.len(), |i: int| false),
                        ..old(self)@.group_form
                    },
                    ..old(self)@
                }
            }),
    {
        if self.group_form.selected.len() != self.contacts.len() {
            self.group_form.selected = no_ticks(self.contacts.len());
        }
    }

    /// Creates the group that was filled in, of oneself and the ticked contacts. It is added
    /// with its standing channels, and to be saved; the answer holds the invitations to send.
    pub fn create_group(&mut self, new: NewGroup) -> (r: Vec<Invite>)
        requires
            1 + recruits(
                old(self)@.contacts,
                old(self)@.group_form.selected,
                seq![],
                1,
                new.joined_at,
            ).len() <= u16::MAX,
        ensures
            ({
                let a = old(self)@;
                let added = recruits(
                    a.contacts,
                    a.group_form.selected,
                    seq![],
                    1,
                    new.joined_at,
                );
                let members = founding_members(
                    founder(
                        a.identity.pubkey,
                        a.settings.nickname,
                        a.identity.fingerprint,
                        a.best_ipv6,
                        a.calls.setup.local_port,
                    ),
                    a.contacts,
                    a.group_form.selected,
                    new.joined_at,
                );
                let group = GroupData {
                    group_id: new.group_id@,
                    name: trimmed(a.group_form.name),
                    created_by: a.identity.pubkey,
                    created_at: new.created_at@,
                    members,
                    group_key: new.group_key@,
                    next_sender_index: (1 + added.len()) as u16,
                    avatar_sha256: None,
                    text_channels: seq![],
                    voice_channels: seq![],
                    call_mode: new.call_mode,
                    key_version: 0,
                    previous_key: None,
                };
                &&& final(self)@ == (AppData {
                    groups: GroupsData {
                        groups: a.groups.groups.push(
                            with_standing(group, new.joined_at),
                        ),
                        nav: NavData { view: GroupView::List, ..a.groups.nav },
                        ..a.groups
                    },
                    group_form: GroupFormData { name: seq![], ..a.group_form },
                    ..a
                })
                &&& views(r@) == founding_invites(members, a.contacts, a.identity.pubkey)
            }),
    {
        let now: u64 = new.joined_at;
        let mut group = create_group(
            &self.identity,
            self.settings.nickname.as_str(),
            self.best_ipv6.as_str(),
            self.calls.setup.local_port.as_str(),
            &self.contacts,
            &self.group_form.selected,
            self.group_form.name.as_str(),
            new,
        );
        ensure_standing_channels(&mut group, now);
        let invites = invites_to_new_group(&group.members, &self.contacts, &self.identity.pubkey);
        let ghost before = self.groups.groups@;
        let ghost gd = group@;
        self.groups.groups.push(group);
        assert(views(self.groups.groups@) =~= views(before).push(gd));
        self.groups.nav.view = GroupView::List;
        self.group_form.name = String::new();
        invites
    }

    /// Invites the ticked contacts to a group. The group is to be saved and sent out; the
    /// answer holds the invitations to send. There is none for a group that is not there.
    pub fn invite_members_to_group(&mut self, at: usize, selected: &Vec<bool>, joined_at: u64) -> (r:
        Option<Vec<Invite>>)
        requires
            at < old(self)@.groups.groups.len() ==> old(self)@.groups.groups[at as int].next_sender_index
                + recruits(
                old(self)@.contacts,
                selected@,
                old(self)@.groups.groups[at as int].members,
                old(self)@.groups.groups[at as int].next_sender_index as int,
                joined_at,
            ).len() <= u16::MAX,
        ensures
            r is Some <==> at < old(self)@.groups.groups.len(),
            r is None ==> final(self)@ == old(self)@,
            r matches Some(invites) ==> {
                let g = old(self)@.groups.groups[at as int];
                &&& final(self)@ == (AppData {
                    groups: GroupsData {
                        groups: old(self)@.groups.groups.update(
                            at as int,
                            with_invited(g, old(self)@.contacts, selected@, joined_at),
                        ),
                        ..old(self)@.groups
                    },
                    ..old(self)@
                })
                &&& views(invites@) == late_invites(
                    recruits(
                        old(self)@.contacts,
                        selected@,
                        g.members,
                        g.next_sender_index as int,
                        joined_at,
                    ),
                    old(self)@.identity.pubkey,
                )
            },
    {
        if at >= self.groups.groups.len() {
            return None;
        }
        let ghost before = views(self.groups.groups@);
        let mut group = self.groups.groups.remove(at);
        let ghost g = group@;
        let n: usize = invite_members(&mut group, &self.contacts, selected, joined_at);
        let ghost added = recruits(
            views(self.contacts@),
            selected@,
            g.members,
            g.next_sender_index as int,
            joined_at,
        );
        assert(views(group.members@).skip(group.members@.len() - n) =~= added);
        let invites = invites_to_added(&group.members, n, &self.identity.pubkey);
        let ghost after = group@;
        self.groups.groups.insert(at, group);
        assert(views(self.groups.groups@) =~= before.update(at as int, after));
        Some(invites)
    }
}

/// The device selected is the first with the saved name, and the first of all where none was
/// saved or it is gone.
pub proof fn the_saved_device_is_selected(names: Seq<Seq<char>>, saved: Seq<char>, i: int)
    requires
        0 <= i <= names.len(),
        forall|k: int| 0 <= k < i ==> names[k] != saved,
        i < names.len() ==> names[i] == saved,
    ensures
        saved.len() == 0 || i == names.len() ==> selected_for(names, saved) == 0,
        saved.len() > 0 && i < names.len() ==> selected_for(names, saved) == i,
{
    position_is(names, saved, i);
}

/// A port that was set is used, and 9000 where none was.
pub proof fn the_port_set_is_used(port: Seq<char>)
    ensures
        port.len() > 0 ==> port_or_default(port) == port,
        port.len() == 0 ==> port_or_default(port) == "9000"@,
{
}

/// Those who can be reached are the contacts with an address and a port that can be read,
/// each once and in their order, under their own identifier and key and at their own address.
/// The answer holds the position of each contact.
pub proof fn contacts_with_an_address_are_reached(
    contacts: Seq<ContactData>,
    readable: Seq<bool>,
) -> (src: Seq<int>)
    ensures
        picks(src, contacts.len() as int),
        src.len() == reachable_contacts(contacts, readable).len(),
        forall|i: int|
            0 <= i < src.len() ==> {
                let c = contacts[#[trigger] src[i]];
                let r = reachable_contacts(contacts, readable)[i];
                &&& c.last_address.len() > 0
                &&& c.last_port.len() > 0
                &&& readable[src[i]]
                &&& r.contact_id == c.contact_id
                &&& r.pubkey == c.pubkey
                &&& r.address == socket_text(c.last_address, c.last_port)
            },
        forall|k: int|
            0 <= k < contacts.len() && (#[trigger] contacts[k]).last_address.len() > 0
                && contacts[k].last_port.len() > 0 && readable[k] ==> src.contains(k),
    decreases contacts.len(),
{
    if contacts.len() == 0 {
        seq![]
    } else {
        let n = contacts.len() - 1;
        let head = contacts.drop_last();
        let src = contacts_with_an_address_are_reached(head, readable);
        let c = contacts.last();
        assert forall|k: int| 0 <= k < n implies #[trigger] contacts[k] == head[k] by {
        }
        if c.last_address.len() > 0 && c.last_port.len() > 0 && readable[n] {
            picks_one_more(src, n);
            src.push(n)
        } else {
            src
        }
    }
}

/// Adding its standing channels changes nothing else of a group.
pub proof fn standing_channels_change_nothing_else(g: GroupData, now: u64)
    ensures
        ({
            let after = with_standing(g, now);
            &&& after.text_channels == with_standing_text(g.text_channels, g.created_by, now)
            &&& after.voice_channels == with_standing_voice(g.voice_channels, g.created_by, now)
            &&& after.group_id == g.group_id
            &&& after.name == g.name
            &&& after.created_by == g.created_by
            &&& after.created_at == g.created_at
            &&& after.members == g.members
            &&& after.group_key == g.group_key
            &&& after.next_sender_index == g.next_sender_index
            &&& after.avatar_sha256 == g.avatar_sha256
            &&& after.call_mode == g.call_mode
            &&& after.key_version == g.key_version
            &&& after.previous_key == g.previous_key
        }),
{
}

/// The settings remember the devices chosen for a group call, and nothing else of it.
pub proof fn settings_remember_the_devices(s: SettingsData, setup: SetupData)
    ensures
        ({
            let after = settings_with_devices(s, setup);
            &&& after.mic == name_at(setup.input_names, setup.selected_input as int)
            &&& after.speakers == name_at(setup.output_names, setup.selected_output as int)
            &&& after.nickname == s.nickname
            &&& after.local_port == s.local_port
            &&& after.network_adapter == s.network_adapter
            &&& after.blocked == s.blocked
            &&& after.banned_ips == s.banned_ips
            &&& after.theme == s.theme
            &&& after.firewall_port == s.firewall_port
            &&& after.muted_groups == s.muted_groups
        }),
{
}

} // verus!
