//! The manager's core: what it knows of the cards, and the jobs that it does.
//!
//! A job is a list of steps for one interface. A step is either bookkeeping, which the
//! manager does itself, or outside work, which it asks for as an [`Action`] and whose
//! [`Outcome`] it takes in. `poll` does the bookkeeping that is due and says what to
//! do next; `complete` takes in what came of it. One job runs at a time.
use super::cards::{by_name, in_order, CardTable, NameSet};
use super::persist::NetCardStore;
use super::{not_cached_text, not_found_text, CardEvent, Command, DhcpEvent, NetCardEvent, NetError};
use crate::{Card, HardwareInfo, Ipv4Addr, Ipv4Info, Ipv6Addr, Ipv6Info, LinkState, NetCardInfo};
use vstd::prelude::*;

verus! {

// ---------------------------------------------------------------------------
// Actions, outcomes and steps
// ---------------------------------------------------------------------------

/// Outside work for the interface of a job.
#[derive(Clone, Copy, Debug, PartialEq, Eq)]
pub enum Action {
    /// Read what the kernel reports of the card.
    ReadHardware,
    /// Create the DHCPv4 client of the card, in the place of any other.
    OpenDhcp4,
    /// Create the DHCPv6 client of the card, in the place of any other.
    OpenDhcp6,
    StartDhcp4,
    StartDhcp6,
    StopDhcp4,
    StopDhcp6,
    /// Take the DHCPv4 client out of use and stop it.
    CloseDhcp4,
    /// Take the DHCPv6 client out of use and stop it.
    CloseDhcp6,
    /// Read the configuration file of the card.
    LoadConfig,
    /// Write the configuration file of the card.
    SaveConfig(NetCardStore),
    /// Switch the link up or down.
    SetLink(bool),
    /// Give the card an address with a subnet mask.
    SetIpv4Address(Ipv4Addr, Ipv4Addr),
    DelIpv4Address(Ipv4Addr, Ipv4Addr),
    SetIpv4Gateway(Ipv4Addr),
    DelIpv4Gateway(Ipv4Addr),
    /// Write the first and the second IPv4 DNS server of the card.
    UpdateIpv4Dns(Ipv4Addr, Ipv4Addr),
    /// Give the card an address with a prefix length.
    SetIpv6Address(Ipv6Addr, u8),
    DelIpv6Address(Ipv6Addr, u8),
    SetIpv6Gateway(Ipv6Addr),
    DelIpv6Gateway(Ipv6Addr),
    /// Write the first and the second IPv6 DNS server of the card.
    UpdateIpv6Dns(Ipv6Addr, Ipv6Addr),
}

/// What came of an action.
#[derive(Debug, PartialEq, Eq)]
pub enum Outcome {
    /// It was done.
    Done,
    /// It failed; the text says how.
    Failed(String),
    /// What the kernel reports.
    Hardware(HardwareInfo),
    /// What the configuration file holds, if there is one that can be read.
    Config(Option<NetCardStore>),
}

/// One step of a job.
#[derive(Clone, Copy, Debug, PartialEq, Eq)]
pub enum Step {
    /// Work without which the rest of the part is given up.
    Must(Action),
    /// Work whose failure is passed over.
    Try(Action),
    /// Read the hardware of a card that is to be added.
    ReadNew,
    /// Read the hardware of a card that is known.
    ReadChanged,
    /// Read the configuration of a card that is to be added with this hardware.
    Load(HardwareInfo),
    /// Write the configuration of the card, if it is known. Failure is passed over.
    Save,
    /// The card has a DHCPv4 client from here on.
    Register4,
    Register6,
    /// The card has no DHCPv4 client from here on.
    Forget4,
    Forget6,
    /// The card is switched on or off.
    PutEnabled(bool),
    PutIpv4(Ipv4Info),
    PutIpv6(Ipv6Info),
    /// The card has the address, the mask and the gateway of a lease.
    LeaseIpv4(Ipv4Info),
    /// The card has the DNS servers of a lease.
    LeaseDns4(Ipv4Info),
    LeaseIpv6(Ipv6Info),
    LeaseDns6(Ipv6Info),
    /// The end of a part of the job. What is given up before it, is given up to here.
    EndPart,
}

/// Whether an outcome is one that the work of `step` can have.
pub open spec fn fits(step: Step, outcome: Outcome) -> bool {
    match step {
        Step::ReadNew | Step::ReadChanged => outcome is Hardware || outcome is Failed,
        Step::Load(_) => outcome is Config,
        _ => outcome is Done || outcome is Failed,
    }
}

// ---------------------------------------------------------------------------
// State, in the language of contracts
// ---------------------------------------------------------------------------

/// What the manager knows: the cards by name, and which interfaces have a DHCP client.
#[verifier::ext_equal]
pub struct NetState {
    pub cards: Map<Seq<char>, Card>,
    pub dhcp4: Set<Seq<char>>,
    pub dhcp6: Set<Seq<char>>,
}

/// Which event the end of a job is reported by.
pub enum Notice {
    Quiet,
    Changed,
    Added,
    Removed(NetCardInfo),
}

/// The same in the language of contracts.
pub enum NoticeState {
    Quiet,
    Changed,
    Added,
    Removed(Card),
}

impl View for Notice {
    type V = NoticeState;

    open spec fn view(&self) -> NoticeState {
        match self {
            Notice::Quiet => NoticeState::Quiet,
            Notice::Changed => NoticeState::Changed,
            Notice::Added => NoticeState::Added,
            Notice::Removed(c) => NoticeState::Removed(c@),
        }
    }
}

/// A job: its interface, the steps that are left, how its end is reported, and the
/// message of the failure that ended it.
#[verifier::ext_equal]
pub struct JobState {
    pub iface: Seq<char>,
    pub steps: Seq<Step>,
    pub notice: NoticeState,
    pub error: Option<Seq<char>>,
}

/// A job that has yet to do `steps`.
pub open spec fn job(iface: Seq<char>, steps: Seq<Step>, notice: NoticeState) -> JobState {
    JobState { iface, steps, notice, error: None }
}

/// A job that is refused at once.
pub open spec fn refused(iface: Seq<char>, error: Seq<char>) -> JobState {
    JobState { iface, steps: seq![], notice: NoticeState::Quiet, error: Some(error) }
}

/// `step`, if `b` holds.
pub open spec fn opt(b: bool, step: Step) -> Seq<Step> {
    if b {
        seq![step]
    } else {
        seq![]
    }
}

// ---------------------------------------------------------------------------
// Plans
// ---------------------------------------------------------------------------

/// Whether a configuration has an address to give to the card.
pub open spec fn has_address4(info: Ipv4Info) -> bool {
    info.ip != Ipv4Addr::zero() && info.netmask != Ipv4Addr::zero()
}

pub open spec fn has_address6(info: Ipv6Info) -> bool {
    info.ip != Ipv6Addr::zero() && info.prefix_len > 0
}

/// Switching a card: the kernel, then the record of it, then the file.
pub open spec fn link_plan(up: bool) -> Seq<Step> {
    seq![Step::Must(Action::SetLink(up)), Step::PutEnabled(up), Step::Save]
}

/// Giving a card the IPv4 configuration `new` in the place of `old`. The DHCP client
/// stops, and what was configured goes. The record changes. Then a disabled
/// configuration is only written to disk. Of an enabled one, what is static is
/// applied, and if anything is to come from DHCP the client starts, else the
/// configuration is written to disk.
pub open spec fn ipv4_plan(client: bool, old: Ipv4Info, new: Ipv4Info) -> Seq<Step> {
    opt(client, Step::Must(Action::StopDhcp4)) + opt(
        has_address4(old),
        Step::Try(Action::DelIpv4Address(old.ip, old.netmask)),
    ) + opt(
        old.gateway != Ipv4Addr::zero(),
        Step::Try(Action::DelIpv4Gateway(old.gateway)),
    ) + seq![Step::PutIpv4(new)] + if !new.enabled {
        seq![Step::Save]
    } else {
        opt(
            !new.use_dhcp && has_address4(new),
            Step::Must(Action::SetIpv4Address(new.ip, new.netmask)),
        ) + opt(
            !new.use_dhcp && new.gateway != Ipv4Addr::zero(),
            Step::Must(Action::SetIpv4Gateway(new.gateway)),
        ) + opt(
            !new.auto_dns,
            Step::Must(Action::UpdateIpv4Dns(new.primary_dns, new.secondary_dns)),
        ) + if new.use_dhcp || new.auto_dns {
            opt(client, Step::Must(Action::StartDhcp4))
        } else {
            seq![Step::Save]
        }
    }
}

/// The same for IPv6.
pub open spec fn ipv6_plan(client: bool, old: Ipv6Info, new: Ipv6Info) -> Seq<Step> {
    opt(client, Step::Must(Action::StopDhcp6)) + opt(
        has_address6(old),
        Step::Try(Action::DelIpv6Address(old.ip, old.prefix_len)),
    ) + opt(
        old.gateway != Ipv6Addr::zero(),
        Step::Try(Action::DelIpv6Gateway(old.gateway)),
    ) + seq![Step::PutIpv6(new)] + if !new.enabled {
        seq![Step::Save]
    } else {
        opt(
            !new.use_dhcp && has_address6(new),
            Step::Must(Action::SetIpv6Address(new.ip, new.prefix_len)),
        ) + opt(
            !new.use_dhcp && new.gateway != Ipv6Addr::zero(),
            Step::Must(Action::SetIpv6Gateway(new.gateway)),
        ) + opt(
            !new.auto_dns,
            Step::Must(Action::UpdateIpv6Dns(new.primary_dns, new.secondary_dns)),
        ) + if new.use_dhcp || new.auto_dns {
            opt(client, Step::Must(Action::StartDhcp6))
        } else {
            seq![Step::Save]
        }
    }
}

/// Taking in a DHCPv4 lease for a card with configuration `ipv4`: address and gateway
/// only where they come from DHCP, DNS servers only where those do.
pub open spec fn lease4_plan(ipv4: Ipv4Info, lease: Ipv4Info) -> Seq<Step> {
    (if ipv4.use_dhcp {
        opt(
            lease.ip != Ipv4Addr::zero(),
            Step::Must(Action::SetIpv4Address(lease.ip, lease.netmask)),
        ) + opt(
            lease.gateway != Ipv4Addr::zero(),
            Step::Must(Action::SetIpv4Gateway(lease.gateway)),
        ) + seq![Step::LeaseIpv4(lease)]
    } else {
        seq![]
    }) + (if ipv4.auto_dns {
        seq![
            Step::Must(Action::UpdateIpv4Dns(lease.primary_dns, lease.secondary_dns)),
            Step::LeaseDns4(lease),
        ]
    } else {
        seq![]
    }) + seq![Step::Save]
}

/// The same for IPv6, where an address also needs a prefix.
pub open spec fn lease6_plan(ipv6: Ipv6Info, lease: Ipv6Info) -> Seq<Step> {
    (if ipv6.use_dhcp {
        opt(
            has_address6(lease),
            Step::Must(Action::SetIpv6Address(lease.ip, lease.prefix_len)),
        ) + opt(
            lease.gateway != Ipv6Addr::zero(),
            Step::Must(Action::SetIpv6Gateway(lease.gateway)),
        ) + seq![Step::LeaseIpv6(lease)]
    } else {
        seq![]
    }) + (if ipv6.auto_dns {
        seq![
            Step::Must(Action::UpdateIpv6Dns(lease.primary_dns, lease.secondary_dns)),
            Step::LeaseDns6(lease),
        ]
    } else {
        seq![]
    }) + seq![Step::Save]
}

/// Applying both configurations of a card anew, each as a part of its own.
pub open spec fn apply_plan(n: NetState, card: Card) -> Seq<Step> {
    ipv4_plan(n.dhcp4.contains(card.name), card.ipv4, card.ipv4) + seq![Step::EndPart] + ipv6_plan(
        n.dhcp6.contains(card.name),
        card.ipv6,
        card.ipv6,
    ) + seq![Step::EndPart]
}

/// Adding a card whose hardware is known: its two clients, then its configuration.
pub open spec fn open_plan(hardware: HardwareInfo) -> Seq<Step> {
    seq![
        Step::Must(Action::OpenDhcp4),
        Step::Register4,
        Step::Must(Action::OpenDhcp6),
        Step::Register6,
        Step::Load(hardware),
    ]
}

/// Removing a card: its clients stop, one after the other.
pub open spec fn close_plan(client4: bool, client6: bool) -> Seq<Step> {
    (if client4 {
        seq![Step::Forget4, Step::Must(Action::CloseDhcp4)]
    } else {
        seq![]
    }) + (if client6 {
        seq![Step::Forget6, Step::Must(Action::CloseDhcp6)]
    } else {
        seq![]
    })
}

/// The card that is made of some hardware and of what was on disk. Without a file it
/// is switched on and has the initial configurations.
pub open spec fn restored_card(
    name: Seq<char>,
    hardware: HardwareInfo,
    saved: Option<NetCardStore>,
) -> Card {
    match saved {
        Some(s) => Card { name, enabled: s.link_up, hardware, ipv4: s.ipv4, ipv6: s.ipv6 },
        None => Card {
            name,
            enabled: true,
            hardware,
            ipv4: Ipv4Info::initial(),
            ipv6: Ipv6Info::initial(),
        },
    }
}

/// What a restored card needs: its switch and, if it is on, its configurations, each
/// as a part of its own. Nothing without a file.
pub open spec fn restore_plan(n: NetState, card: Card, saved: bool) -> Seq<Step> {
    if !saved {
        seq![]
    } else {
        link_plan(card.enabled) + seq![Step::EndPart] + if card.enabled {
            apply_plan(n, card)
        } else {
            seq![]
        }
    }
}

// ---------------------------------------------------------------------------
// Running a job
// ---------------------------------------------------------------------------

/// What is kept on disk of a card.
pub open spec fn store_of(card: Card) -> NetCardStore {
    NetCardStore { link_up: card.enabled, ipv4: card.ipv4, ipv6: card.ipv6 }
}

/// The outside work of the first step of a job, if it has any.
pub open spec fn wanted(n: NetState, j: JobState) -> Option<Action> {
    if j.steps.len() == 0 {
        None
    } else {
        match j.steps[0] {
            Step::Must(a) => Some(a),
            Step::Try(a) => Some(a),
            Step::ReadNew => Some(Action::ReadHardware),
            Step::ReadChanged => Some(Action::ReadHardware),
            Step::Load(_) => Some(Action::LoadConfig),
            Step::Save => if n.cards.contains_key(j.iface) {
                Some(Action::SaveConfig(store_of(n.cards[j.iface])))
            } else {
                None
            },
            _ => None,
        }
    }
}

/// A card after the bookkeeping of `step`.
pub open spec fn booked_card(c: Card, step: Step) -> Card {
    match step {
        Step::PutEnabled(up) => Card { enabled: up, ..c },
        Step::PutIpv4(info) => Card { ipv4: info, ..c },
        Step::PutIpv6(info) => Card { ipv6: info, ..c },
        Step::LeaseIpv4(l) => Card {
            ipv4: Ipv4Info { ip: l.ip, netmask: l.netmask, gateway: l.gateway, ..c.ipv4 },
            ..c
        },
        Step::LeaseDns4(l) => Card {
            ipv4: Ipv4Info {
                primary_dns: l.primary_dns,
                secondary_dns: l.secondary_dns,
                ..c.ipv4
            },
            ..c
        },
        Step::LeaseIpv6(l) => Card {
            ipv6: Ipv6Info { ip: l.ip, prefix_len: l.prefix_len, gateway: l.gateway, ..c.ipv6 },
            ..c
        },
        Step::LeaseDns6(l) => Card {
            ipv6: Ipv6Info {
                primary_dns: l.primary_dns,
                secondary_dns: l.secondary_dns,
                ..c.ipv6
            },
            ..c
        },
        _ => c,
    }
}

/// The state after the bookkeeping of `step` for `iface`.
pub open spec fn booked(n: NetState, iface: Seq<char>, step: Step) -> NetState {
    match step {
        Step::Register4 => NetState { dhcp4: n.dhcp4.insert(iface), ..n },
        Step::Register6 => NetState { dhcp6: n.dhcp6.insert(iface), ..n },
        Step::Forget4 => NetState { dhcp4: n.dhcp4.remove(iface), ..n },
        Step::Forget6 => NetState { dhcp6: n.dhcp6.remove(iface), ..n },
        _ => if n.cards.contains_key(iface) {
            NetState { cards: n.cards.insert(iface, booked_card(n.cards[iface], step)), ..n }
        } else {
            n
        },
    }
}

/// State and job after the first step, where it is bookkeeping.
pub open spec fn advanced(n: NetState, j: JobState) -> (NetState, JobState) {
    (booked(n, j.iface, j.steps[0]), JobState { steps: j.steps.drop_first(), ..j })
}

/// State and job after the bookkeeping that is due before the next outside work, or
/// before the end of the job.
pub open spec fn settled(n: NetState, j: JobState) -> (NetState, JobState)
    decreases j.steps.len(),
{
    if j.steps.len() == 0 || wanted(n, j) is Some {
        (n, j)
    } else {
        settled(advanced(n, j).0, advanced(n, j).1)
    }
}

/// The steps behind the part of the job that the first step belongs to, if it belongs
/// to a part.
pub open spec fn past_part(steps: Seq<Step>) -> Option<Seq<Step>>
    decreases steps.len(),
{
    if steps.len() == 0 {
        None
    } else if steps[0] is EndPart {
        Some(steps.drop_first())
    } else {
        past_part(steps.drop_first())
    }
}

/// A job one of whose steps has failed for good: the part that it belongs to is given
/// up or, if it belongs to none, the job.
pub open spec fn given_up(j: JobState, error: Seq<char>) -> JobState {
    match past_part(j.steps) {
        Some(rest) => JobState { steps: rest, ..j },
        None => JobState { steps: seq![], error: Some(error), ..j },
    }
}

/// Whether the hardware says that the link has come up.
pub open spec fn came_up(n: NetState, iface: Seq<char>, hardware: HardwareInfo) -> bool {
    hardware.state == LinkState::Up && !(n.cards.contains_key(iface)
        && n.cards[iface].hardware.state == LinkState::Up)
}

/// A known card with new hardware. If its link has come up and it is switched on, its
/// configurations are applied anew.
pub open spec fn refreshed(n: NetState, j: JobState, hardware: HardwareInfo) -> (
    NetState,
    JobState,
) {
    if n.cards.contains_key(j.iface) {
        let card = Card { hardware, ..n.cards[j.iface] };
        (
            NetState { cards: n.cards.insert(j.iface, card), ..n },
            JobState {
                steps: if came_up(n, j.iface, hardware) && card.enabled {
                    apply_plan(n, card)
                } else {
                    seq![]
                },
                ..j
            },
        )
    } else {
        (n, JobState { steps: seq![], ..j })
    }
}

/// State and job after the outcome of the first step.
pub open spec fn completed(n: NetState, j: JobState, outcome: Outcome) -> (NetState, JobState) {
    let step = j.steps[0];
    let rest = JobState { steps: j.steps.drop_first(), ..j };
    match outcome {
        Outcome::Done => (n, rest),
        Outcome::Failed(text) => if step is Try || step is Save {
            (n, rest)
        } else {
            (n, given_up(j, text@))
        },
        Outcome::Hardware(hardware) => if step is ReadNew {
            (n, JobState { steps: open_plan(hardware), ..j })
        } else {
            refreshed(n, j, hardware)
        },
        Outcome::Config(saved) => {
            let card = restored_card(j.iface, step->Load_0, saved);
            (
                NetState { cards: n.cards.insert(j.iface, card), ..n },
                JobState { steps: restore_plan(n, card, saved is Some), ..j },
            )
        },
    }
}

/// The event that reports the end of a job that has not failed.
pub open spec fn event_of(n: NetState, j: JobState) -> Option<CardEvent> {
    match j.notice {
        NoticeState::Quiet => None,
        NoticeState::Changed => if n.cards.contains_key(j.iface) {
            Some(CardEvent::Changed(n.cards[j.iface]))
        } else {
            None
        },
        NoticeState::Added => if n.cards.contains_key(j.iface) {
            Some(CardEvent::Added(n.cards[j.iface]))
        } else {
            None
        },
        NoticeState::Removed(card) => Some(CardEvent::Removed(card)),
    }
}

// ---------------------------------------------------------------------------
// Jobs
// ---------------------------------------------------------------------------

/// A job of the manager.
pub struct Job {
    iface: String,
    steps: Vec<Step>,
    notice: Notice,
    error: Option<NetError>,
}

impl View for Job {
    type V = JobState;

    closed spec fn view(&self) -> JobState {
        JobState {
            iface: self.iface@,
            steps: self.steps@,
            notice: self.notice@,
            error: match self.error {
                Some(e) => Some(e@),
                None => None,
            },
        }
    }
}

impl Job {
    fn new(iface: &str, steps: Vec<Step>, notice: Notice) -> (r: Self)
        ensures
            r@ == job(iface@, steps@, notice@),
    {
        Job { iface: iface.to_string(), steps, notice, error: None }
    }

    fn refuse(iface: &str, error: NetError) -> (r: Self)
        ensures
            r@ == refused(iface@, error@),
    {
        let r = Job {
            iface: iface.to_string(),
            steps: Vec::new(),
            notice: Notice::Quiet,
            error: Some(error),
        };
        assert(r@ =~= refused(iface@, error@));
        r
    }

    /// The interface that the job is for.
    pub fn iface(&self) -> (r: String)
        ensures
            r@ == self@.iface,
    {
        self.iface.clone()
    }

    /// Takes the first step off.
    fn advance(&mut self)
        requires
            old(self)@.steps.len() > 0,
        ensures
            final(self)@ == (JobState { steps: old(self)@.steps.drop_first(), ..old(self)@ }),
    {
        let _ = self.steps.remove(0);
        assert(self@.steps =~= old(self)@.steps.drop_first());
    }

    /// Gives up the part that the first step belongs to, or the job.
    fn give_up(&mut self, text: String)
        ensures
            final(self)@ == given_up(old(self)@, text@),
    {
        let ghost all = self.steps@;
        let ghost j = self@;
        while self.steps.len() > 0
            invariant
                past_part(self.steps@) == past_part(all),
                self@ == (JobState { steps: self.steps@, ..j }),
                all == j.steps,
                j == old(self)@,
            decreases self.steps.len(),
        {
            let ghost before = self.steps@;
            let first = self.steps.remove(0);
            assert(self.steps@ =~= before.drop_first());
            if let Step::EndPart = first {
                return;
            }
        }
        self.error = Some(NetError::Outside(text));
        assert(self@.steps =~= Seq::<Step>::empty());
    }
}

/// What is to be done next for a job.
pub enum Next {
    /// This outside work; its outcome goes to `complete`.
    Perform(Action),
    /// Nothing: the job is at its end, with an event to report or with an error.
    Finished(Result<Option<NetCardEvent>, NetError>),
}

/// How a command is answered.
pub enum Answer {
    /// The card that was asked for.
    Card(Result<NetCardInfo, NetError>),
    /// All cards.
    Cards(Vec<NetCardInfo>),
    /// The job whose end is the answer.
    Work(Job),
}

// ---------------------------------------------------------------------------
// The steps of a plan
// ---------------------------------------------------------------------------

fn opt_steps(b: bool, step: Step) -> (r: Vec<Step>)
    ensures
        r@ == opt(b, step),
{
    let mut out: Vec<Step> = Vec::new();
    if b {
        out.push(step);
    }
    assert(out@ =~= opt(b, step));
    out
}

fn address4(info: &Ipv4Info) -> (r: bool)
    ensures
        r == has_address4(*info),
{
    !info.ip.is_unspecified() && !info.netmask.is_unspecified()
}

fn address6(info: &Ipv6Info) -> (r: bool)
    ensures
        r == has_address6(*info),
{
    !info.ip.is_unspecified() && info.prefix_len > 0
}

fn link_steps(up: bool) -> (r: Vec<Step>)
    ensures
        r@ == link_plan(up),
{
    vec![Step::Must(Action::SetLink(up)), Step::PutEnabled(up), Step::Save]
}

fn ipv4_steps(client: bool, old_info: &Ipv4Info, info: &Ipv4Info) -> (r: Vec<Step>)
    ensures
        r@ == ipv4_plan(client, *old_info, *info),
{
    let mut out = opt_steps(client, Step::Must(Action::StopDhcp4));
    out.append(
        &mut opt_steps(
            address4(old_info),
            Step::Try(Action::DelIpv4Address(old_info.ip, old_info.netmask)),
        ),
    );
    out.append(
        &mut opt_steps(
            !old_info.gateway.is_unspecified(),
            Step::Try(Action::DelIpv4Gateway(old_info.gateway)),
        ),
    );
    out.append(&mut vec![Step::PutIpv4(*info)]);
    if !info.enabled {
        out.append(&mut vec![Step::Save]);
    } else {
        let mut tail = opt_steps(
            !info.use_dhcp && address4(info),
            Step::Must(Action::SetIpv4Address(info.ip, info.netmask)),
        );
        tail.append(
            &mut opt_steps(
                !info.use_dhcp && !info.gateway.is_unspecified(),
                Step::Must(Action::SetIpv4Gateway(info.gateway)),
            ),
        );
        tail.append(
            &mut opt_steps(
                !info.auto_dns,
                Step::Must(Action::UpdateIpv4Dns(info.primary_dns, info.secondary_dns)),
            ),
        );
        let mut end = if info.use_dhcp || info.auto_dns {
            opt_steps(client, Step::Must(Action::StartDhcp4))
        } else {
            vec![Step::Save]
        };
        tail.append(&mut end);
        out.append(&mut tail);
    }
    out
}

fn ipv6_steps(client: bool, old_info: &Ipv6Info, info: &Ipv6Info) -> (r: Vec<Step>)
    ensures
        r@ == ipv6_plan(client, *old_info, *info),
{
    let mut out = opt_steps(client, Step::Must(Action::StopDhcp6));
    out.append(
        &mut opt_steps(
            address6(old_info),
            Step::Try(Action::DelIpv6Address(old_info.ip, old_info.prefix_len)),
        ),
    );
    out.append(
        &mut opt_steps(
            !old_info.gateway.is_unspecified(),
            Step::Try(Action::DelIpv6Gateway(old_info.gateway)),
        ),
    );
    out.append(&mut vec![Step::PutIpv6(*info)]);
    if !info.enabled {
        out.append(&mut vec![Step::Save]);
    } else {
        let mut tail = opt_steps(
            !info.use_dhcp && address6(info),
            Step::Must(Action::SetIpv6Address(info.ip, info.prefix_len)),
        );
        tail.append(
            &mut opt_steps(
                !info.use_dhcp && !info.gateway.is_unspecified(),
                Step::Must(Action::SetIpv6Gateway(info.gateway)),
            ),
        );
        tail.append(
            &mut opt_steps(
                !info.auto_dns,
                Step::Must(Action::UpdateIpv6Dns(info.primary_dns, info.secondary_dns)),
            ),
        );
        let mut end = if info.use_dhcp || info.auto_dns {
            opt_steps(client, Step::Must(Action::StartDhcp6))
        } else {
            vec![Step::Save]
        };
        tail.append(&mut end);
        out.append(&mut tail);
    }
    out
}

fn lease4_steps(ipv4: &Ipv4Info, lease: &Ipv4Info) -> (r: Vec<Step>)
    ensures
        r@ == lease4_plan(*ipv4, *lease),
{
    let mut out: Vec<Step> = Vec::new();
    if ipv4.use_dhcp {
        out = opt_steps(
            !lease.ip.is_unspecified(),
            Step::Must(Action::SetIpv4Address(lease.ip, lease.netmask)),
        );
        out.append(
            &mut opt_steps(
                !lease.gateway.is_unspecified(),
                Step::Must(Action::SetIpv4Gateway(lease.gateway)),
            ),
        );
        out.append(&mut vec![Step::LeaseIpv4(*lease)]);
    }
    let mut dns: Vec<Step> = Vec::new();
    if ipv4.auto_dns {
        dns = vec![
            Step::Must(Action::UpdateIpv4Dns(lease.primary_dns, lease.secondary_dns)),
            Step::LeaseDns4(*lease),
        ];
    }
    out.append(&mut dns);
    out.append(&mut vec![Step::Save]);
    out
}

fn lease6_steps(ipv6: &Ipv6Info, lease: &Ipv6Info) -> (r: Vec<Step>)
    ensures
        r@ == lease6_plan(*ipv6, *lease),
{
    let mut out: Vec<Step> = Vec::new();
    if ipv6.use_dhcp {
        out = opt_steps(
            address6(lease),
            Step::Must(Action::SetIpv6Address(lease.ip, lease.prefix_len)),
        );
        out.append(
            &mut opt_steps(
                !lease.gateway.is_unspecified(),
                Step::Must(Action::SetIpv6Gateway(lease.gateway)),
            ),
        );
        out.append(&mut vec![Step::LeaseIpv6(*lease)]);
    }
    let mut dns: Vec<Step> = Vec::new();
    if ipv6.auto_dns {
        dns = vec![
            Step::Must(Action::UpdateIpv6Dns(lease.primary_dns, lease.secondary_dns)),
            Step::LeaseDns6(*lease),
        ];
    }
    out.append(&mut dns);
    out.append(&mut vec![Step::Save]);
    out
}

fn open_steps(hardware: HardwareInfo) -> (r: Vec<Step>)
    ensures
        r@ == open_plan(hardware),
{
    vec![
        Step::Must(Action::OpenDhcp4),
        Step::Register4,
        Step::Must(Action::OpenDhcp6),
        Step::Register6,
        Step::Load(hardware),
    ]
}

fn close_steps(client4: bool, client6: bool) -> (r: Vec<Step>)
    ensures
        r@ == close_plan(client4, client6),
{
    let mut out: Vec<Step> = Vec::new();
    if client4 {
        out = vec![Step::Forget4, Step::Must(Action::CloseDhcp4)];
    }
    let mut more: Vec<Step> = Vec::new();
    if client6 {
        more = vec![Step::Forget6, Step::Must(Action::CloseDhcp6)];
    }
    out.append(&mut more);
    out
}

// ---------------------------------------------------------------------------
// The manager
// ---------------------------------------------------------------------------

/// The manager's memory.
pub struct NetworkActor {
    cards: CardTable,
    dhcp4: NameSet,
    dhcp6: NameSet,
}

impl View for NetworkActor {
    type V = NetState;

    closed spec fn view(&self) -> NetState {
        NetState { cards: self.cards@, dhcp4: self.dhcp4@, dhcp6: self.dhcp6@ }
    }
}

/// The card of that name, or that there is none.
pub open spec fn card_answer(n: NetState, iface: Seq<char>, r: Result<NetCardInfo, NetError>) -> bool {
    match r {
        Ok(card) => n.cards.contains_key(iface) && card@ == n.cards[iface],
        Err(e) => !n.cards.contains_key(iface) && e@ == not_found_text(iface),
    }
}

/// A card switched on or off.
pub open spec fn link_job(n: NetState, iface: Seq<char>, up: bool) -> JobState {
    if n.cards.contains_key(iface) {
        job(iface, link_plan(up), NoticeState::Quiet)
    } else {
        refused(iface, not_found_text(iface))
    }
}

/// A card given an IPv4 configuration.
pub open spec fn ipv4_job(n: NetState, iface: Seq<char>, info: Ipv4Info) -> JobState {
    if n.cards.contains_key(iface) {
        job(
            iface,
            ipv4_plan(n.dhcp4.contains(iface), n.cards[iface].ipv4, info),
            NoticeState::Quiet,
        )
    } else {
        refused(iface, not_found_text(iface))
    }
}

/// A card given an IPv6 configuration.
pub open spec fn ipv6_job(n: NetState, iface: Seq<char>, info: Ipv6Info) -> JobState {
    if n.cards.contains_key(iface) {
        job(
            iface,
            ipv6_plan(n.dhcp6.contains(iface), n.cards[iface].ipv6, info),
            NoticeState::Quiet,
        )
    } else {
        refused(iface, not_found_text(iface))
    }
}

/// A DHCPv4 lease taken in.
pub open spec fn lease4_job(n: NetState, iface: Seq<char>, lease: Ipv4Info) -> JobState {
    if n.cards.contains_key(iface) {
        job(iface, lease4_plan(n.cards[iface].ipv4, lease), NoticeState::Changed)
    } else {
        refused(iface, not_cached_text(iface))
    }
}

/// A DHCPv6 lease taken in.
pub open spec fn lease6_job(n: NetState, iface: Seq<char>, lease: Ipv6Info) -> JobState {
    if n.cards.contains_key(iface) {
        job(iface, lease6_plan(n.cards[iface].ipv6, lease), NoticeState::Changed)
    } else {
        refused(iface, not_cached_text(iface))
    }
}

/// State and job after the kernel has reported a link. A link that is there is a known
/// card, which is read anew, or a new card, which is added. A link that is gone takes
/// its card with it.
pub open spec fn link_event(n: NetState, iface: Seq<char>, added: bool) -> (NetState, JobState) {
    if added {
        if n.cards.contains_key(iface) {
            (n, job(iface, seq![Step::ReadChanged], NoticeState::Changed))
        } else {
            (n, job(iface, seq![Step::ReadNew], NoticeState::Added))
        }
    } else {
        (
            NetState { cards: n.cards.remove(iface), ..n },
            job(
                iface,
                close_plan(n.dhcp4.contains(iface), n.dhcp6.contains(iface)),
                if n.cards.contains_key(iface) {
                    NoticeState::Removed(n.cards[iface])
                } else {
                    NoticeState::Quiet
                },
            ),
        )
    }
}

impl NetworkActor {
    /// The tables are in order.
    pub closed spec fn wf(&self) -> bool {
        self.cards.wf() && self.dhcp4.wf() && self.dhcp6.wf()
    }

    /// Each card stands under its own name.
    pub proof fn lemma_names(&self)
        requires
            self.wf(),
        ensures
            names_match(self@),
    {
        assert forall|name: Seq<char>| #[trigger] self@.cards.contains_key(name) implies self@.cards[name].name
            == name by {
            self.cards.lemma_names(name);
        }
    }

    /// A manager that knows no card.
    pub fn new() -> (r: Self)
        ensures
            r.wf(),
            r@ == (NetState {
                cards: Map::empty(),
                dhcp4: Set::empty(),
                dhcp6: Set::empty(),
            }),
    {
        NetworkActor { cards: CardTable::new(), dhcp4: NameSet::new(), dhcp6: NameSet::new() }
    }

    /// The jobs that add the cards of the given names, in that order.
    pub fn init_netcards(names: &Vec<String>) -> (r: Vec<Job>)
        ensures
            r@.len() == names@.len(),
            forall|i: int|
                0 <= i < r@.len() ==> (#[trigger] r@[i])@ == job(
                    names@[i]@,
                    seq![Step::ReadNew],
                    NoticeState::Quiet,
                ),
    {
        let mut out: Vec<Job> = Vec::new();
        let mut i: usize = 0;
        while i < names.len()
            invariant
                i <= names@.len(),
                out@.len() == i,
                forall|k: int|
                    0 <= k < i ==> (#[trigger] out@[k])@ == job(
                        names@[k]@,
                        seq![Step::ReadNew],
                        NoticeState::Quiet,
                    ),
            decreases names.len() - i,
        {
            out.push(Self::add_netcard(names[i].as_str()));
            i += 1;
        }
        out
    }

    /// The job that adds a card.
    pub fn add_netcard(iface_name: &str) -> (r: Job)
        ensures
            r@ == job(iface_name@, seq![Step::ReadNew], NoticeState::Quiet),
    {
        Job::new(iface_name, vec![Step::ReadNew], Notice::Quiet)
    }

    /// Takes in a command.
    pub fn handle_cmd(&self, cmd: Command) -> (r: Answer)
        requires
            self.wf(),
        ensures
            match cmd {
                Command::GetNetCard { iface_name } => r matches Answer::Card(c) && card_answer(
                    self@,
                    iface_name@,
                    c,
                ),
                Command::GetAllNetCards => r matches Answer::Cards(cs) && in_order(cs@) && by_name(
                    cs@,
                ) == self@.cards,
                Command::SetLinkState { iface_name, up } => r matches Answer::Work(j) && j@
                    == link_job(self@, iface_name@, up),
                Command::SetIpv4 { iface_name, info } => r matches Answer::Work(j) && j@
                    == ipv4_job(self@, iface_name@, info),
                Command::SetIpv6 { iface_name, info } => r matches Answer::Work(j) && j@
                    == ipv6_job(self@, iface_name@, info),
            },
    {
        match cmd {
            Command::GetNetCard { iface_name } => Answer::Card(
                self.get_netcard_info(iface_name.as_str()),
            ),
            Command::GetAllNetCards => Answer::Cards(self.get_all_netcards()),
            Command::SetLinkState { iface_name, up } => Answer::Work(
                self.set_link_state(iface_name.as_str(), up),
            ),
            Command::SetIpv4 { iface_name, info } => Answer::Work(
                self.set_ipv4_info(iface_name.as_str(), info),
            ),
            Command::SetIpv6 { iface_name, info } => Answer::Work(
                self.set_ipv6_info(iface_name.as_str(), info),
            ),
        }
    }

    /// The card of that name.
    pub fn get_netcard_info(&self, iface_name: &str) -> (r: Result<NetCardInfo, NetError>)
        requires
            self.wf(),
        ensures
            card_answer(self@, iface_name@, r),
    {
        match self.cards.get(iface_name) {
            Some(card) => Ok(card),
            None => Err(NetError::NotFound(iface_name.to_string())),
        }
    }

    /// All cards, in the order of their names.
    pub fn get_all_netcards(&self) -> (r: Vec<NetCardInfo>)
        requires
            self.wf(),
        ensures
            in_order(r@),
            by_name(r@) == self@.cards,
    {
        self.cards.all()
    }

    /// The job that switches a card on or off.
    pub fn set_link_state(&self, iface_name: &str, up: bool) -> (r: Job)
        requires
            self.wf(),
        ensures
            r@ == link_job(self@, iface_name@, up),
    {
        if self.cards.contains(iface_name) {
            Job::new(iface_name, link_steps(up), Notice::Quiet)
        } else {
            Job::refuse(iface_name, NetError::NotFound(iface_name.to_string()))
        }
    }

    /// The job that gives a card an IPv4 configuration.
    pub fn set_ipv4_info(&self, iface_name: &str, info: Ipv4Info) -> (r: Job)
        requires
            self.wf(),
        ensures
            r@ == ipv4_job(self@, iface_name@, info),
    {
        match self.cards.get(iface_name) {
            Some(card) => Job::new(
                iface_name,
                ipv4_steps(self.dhcp4.contains(iface_name), &card.ipv4, &info),
                Notice::Quiet,
            ),
            None => Job::refuse(iface_name, NetError::NotFound(iface_name.to_string())),
        }
    }

    /// The job that gives a card an IPv6 configuration.
    pub fn set_ipv6_info(&self, iface_name: &str, info: Ipv6Info) -> (r: Job)
        requires
            self.wf(),
        ensures
            r@ == ipv6_job(self@, iface_name@, info),
    {
        match self.cards.get(iface_name) {
            Some(card) => Job::new(
                iface_name,
                ipv6_steps(self.dhcp6.contains(iface_name), &card.ipv6, &info),
                Notice::Quiet,
            ),
            None => Job::refuse(iface_name, NetError::NotFound(iface_name.to_string())),
        }
    }

    /// The job that takes in a lease.
    pub fn handle_dhcp_lease(&self, lease: DhcpEvent) -> (r: Job)
        requires
            self.wf(),
        ensures
            r@ == (match lease {
                DhcpEvent::V4(iface, lease) => lease4_job(self@, iface@, lease),
                DhcpEvent::V6(iface, lease) => lease6_job(self@, iface@, lease),
            }),
    {
        match lease {
            DhcpEvent::V4(iface, lease) => self.handle_dhcp4_lease(iface.as_str(), lease),
            DhcpEvent::V6(iface, lease) => self.handle_dhcp6_lease(iface.as_str(), lease),
        }
    }

    /// The job that takes in a DHCPv4 lease.
    pub fn handle_dhcp4_lease(&self, iface_name: &str, lease: Ipv4Info) -> (r: Job)
        requires
            self.wf(),
        ensures
            r@ == lease4_job(self@, iface_name@, lease),
    {
        match self.cards.get(iface_name) {
            Some(card) => Job::new(iface_name, lease4_steps(&card.ipv4, &lease), Notice::Changed),
            None => Job::refuse(iface_name, NetError::NotCached(iface_name.to_string())),
        }
    }

    /// The job that takes in a DHCPv6 lease.
    pub fn handle_dhcp6_lease(&self, iface_name: &str, lease: Ipv6Info) -> (r: Job)
        requires
            self.wf(),
        ensures
            r@ == lease6_job(self@, iface_name@, lease),
    {
        match self.cards.get(iface_name) {
            Some(card) => Job::new(iface_name, lease6_steps(&card.ipv6, &lease), Notice::Changed),
            None => Job::refuse(iface_name, NetError::NotCached(iface_name.to_string())),
        }
    }

    /// Takes in that the kernel has reported a link.
    pub fn handle_link_event(&mut self, iface_name: &str, added: bool) -> (r: Job)
        requires
            old(self).wf(),
        ensures
            final(self).wf(),
            (final(self)@, r@) == link_event(old(self)@, iface_name@, added),
    {
        if added {
            if self.cards.contains(iface_name) {
                Job::new(iface_name, vec![Step::ReadChanged], Notice::Changed)
            } else {
                Job::new(iface_name, vec![Step::ReadNew], Notice::Added)
            }
        } else {
            let steps = close_steps(self.dhcp4.contains(iface_name), self.dhcp6.contains(iface_name));
            let notice = match self.cards.remove(iface_name) {
                Some(card) => Notice::Removed(card),
                None => Notice::Quiet,
            };
            Job::new(iface_name, steps, notice)
        }
    }
}

/// Each card stands under its own name.
pub open spec fn names_match(n: NetState) -> bool {
    forall|name: Seq<char>| #[trigger] n.cards.contains_key(name) ==> n.cards[name].name == name
}

/// What `poll` says of a job that has settled: its next outside work or, at its end,
/// the error that it has failed with, else the event that it is reported by.
pub open spec fn next_is(n: NetState, j: JobState, next: Next) -> bool {
    match next {
        Next::Perform(action) => wanted(n, j) == Some(action),
        Next::Finished(result) => j.steps.len() == 0 && match result {
            Ok(Some(event)) => j.error is None && event_of(n, j) == Some(event@),
            Ok(None) => j.error is None && event_of(n, j) is None,
            Err(e) => j.error == Some(e@),
        },
    }
}

impl NetworkActor {
    /// Does the bookkeeping that is due in a job, and says what comes next.
    pub fn poll(&mut self, job: &mut Job) -> (r: Next)
        requires
            old(self).wf(),
        ensures
            final(self).wf(),
            (final(self)@, final(job)@) == settled(old(self)@, old(job)@),
            next_is(final(self)@, final(job)@, r),
    {
        let ghost goal = settled(self@, job@);
        while job.steps.len() > 0
            invariant
                self.wf(),
                settled(self@, job@) == goal,
                goal == settled(old(self)@, old(job)@),
            decreases job.steps.len(),
        {
            let step = job.steps[0];
            if let Some(action) = self.work_of(job.iface.as_str(), &step) {
                return Next::Perform(action);
            }
            self.book(job.iface.as_str(), &step);
            job.advance();
        }
        Next::Finished(self.result_of(job))
    }

    /// Takes in what came of the outside work that `poll` asked for.
    pub fn complete(&mut self, job: &mut Job, outcome: Outcome)
        requires
            old(self).wf(),
            wanted(old(self)@, old(job)@) is Some,
            fits(old(job)@.steps[0], outcome),
        ensures
            final(self).wf(),
            (final(self)@, final(job)@) == completed(old(self)@, old(job)@, outcome),
    {
        let step = job.steps[0];
        match outcome {
            Outcome::Done => {
                job.advance();
            },
            Outcome::Failed(text) => {
                let passed_over = match step {
                    Step::Try(_) | Step::Save => true,
                    _ => false,
                };
                if passed_over {
                    job.advance();
                } else {
                    job.give_up(text);
                }
            },
            Outcome::Hardware(hardware) => match step {
                Step::ReadNew => {
                    job.steps = open_steps(hardware);
                },
                _ => {
                    self.refresh(job, hardware);
                },
            },
            Outcome::Config(saved) => {
                if let Step::Load(hardware) = step {
                    self.restore(job, hardware, saved);
                }
            },
        }
    }

    /// The outside work of a step.
    fn work_of(&self, iface: &str, step: &Step) -> (r: Option<Action>)
        requires
            self.wf(),
        ensures
            forall|j: JobState|
                j.iface == iface@ && j.steps.len() > 0 && j.steps[0] == *step ==> r == #[trigger] wanted(
                    self@,
                    j,
                ),
    {
        match step {
            Step::Must(action) => Some(*action),
            Step::Try(action) => Some(*action),
            Step::ReadNew => Some(Action::ReadHardware),
            Step::ReadChanged => Some(Action::ReadHardware),
            Step::Load(_) => Some(Action::LoadConfig),
            Step::Save => match self.cards.get(iface) {
                Some(card) => Some(
                    Action::SaveConfig(NetCardStore::new(card.enabled, &card.ipv4, &card.ipv6)),
                ),
                None => None,
            },
            _ => None,
        }
    }

    /// Does the bookkeeping of a step.
    fn book(&mut self, iface: &str, step: &Step)
        requires
            old(self).wf(),
        ensures
            final(self).wf(),
            final(self)@ == booked(old(self)@, iface@, *step),
    {
        match step {
            Step::Register4 => {
                self.dhcp4.insert(iface);
            },
            Step::Register6 => {
                self.dhcp6.insert(iface);
            },
            Step::Forget4 => {
                self.dhcp4.remove(iface);
            },
            Step::Forget6 => {
                self.dhcp6.remove(iface);
            },
            _ => {
                if let Some(card) = self.cards.get(iface) {
                    proof {
                        self.cards.lemma_names(iface@);
                    }
                    self.cards.put(book_card(card, step));
                }
            },
        }
    }

    /// How a job ends.
    fn result_of(&self, job: &Job) -> (r: Result<Option<NetCardEvent>, NetError>)
        requires
            self.wf(),
            job@.steps.len() == 0,
        ensures
            next_is(self@, job@, Next::Finished(r)),
    {
        if let Some(e) = &job.error {
            return Err(e.clone());
        }
        match &job.notice {
            Notice::Quiet => Ok(None),
            Notice::Changed => match self.cards.get(job.iface.as_str()) {
                Some(card) => Ok(Some(NetCardEvent::Changed(card))),
                None => Ok(None),
            },
            Notice::Added => match self.cards.get(job.iface.as_str()) {
                Some(card) => Ok(Some(NetCardEvent::Added(card))),
                None => Ok(None),
            },
            Notice::Removed(card) => Ok(Some(NetCardEvent::Removed(card.clone()))),
        }
    }

    /// The steps that apply both configurations of a card anew.
    fn apply_steps(&self, card: &NetCardInfo) -> (r: Vec<Step>)
        requires
            self.wf(),
        ensures
            r@ == apply_plan(self@, card@),
    {
        let mut out = ipv4_steps(self.dhcp4.contains(card.name.as_str()), &card.ipv4, &card.ipv4);
        out.append(&mut vec![Step::EndPart]);
        out.append(
            &mut ipv6_steps(self.dhcp6.contains(card.name.as_str()), &card.ipv6, &card.ipv6),
        );
        out.append(&mut vec![Step::EndPart]);
        out
    }

    /// Gives a known card new hardware.
    fn refresh(&mut self, job: &mut Job, hardware: HardwareInfo)
        requires
            old(self).wf(),
        ensures
            final(self).wf(),
            (final(self)@, final(job)@) == refreshed(old(self)@, old(job)@, hardware),
    {
        let mut steps: Vec<Step> = Vec::new();
        if let Some(mut card) = self.cards.get(job.iface.as_str()) {
            proof {
                self.cards.lemma_names(job@.iface);
            }
            let came_up = hardware.state == LinkState::Up && card.hardware.state != LinkState::Up;
            card.hardware = hardware;
            if came_up && card.enabled {
                steps = self.apply_steps(&card);
            }
            self.cards.put(card);
        }
        job.steps = steps;
    }

    /// Makes a card of some hardware and of what was on disk.
    fn restore(&mut self, job: &mut Job, hardware: HardwareInfo, saved: Option<NetCardStore>)
        requires
            old(self).wf(),
        ensures
            final(self).wf(),
            ({
                let card = restored_card(old(job)@.iface, hardware, saved);
                &&& final(self)@ == (NetState {
                    cards: old(self)@.cards.insert(old(job)@.iface, card),
                    ..old(self)@
                })
                &&& final(job)@ == (JobState {
                    steps: restore_plan(old(self)@, card, saved is Some),
                    ..old(job)@
                })
            }),
    {
        let mut steps: Vec<Step> = Vec::new();
        let card = match saved {
            Some(s) => NetCardInfo::new(
                job.iface.clone(),
                s.link_up(),
                hardware,
                s.ipv4(),
                s.ipv6(),
            ),
            None => NetCardInfo::new(
                job.iface.clone(),
                true,
                hardware,
                Ipv4Info::default(),
                Ipv6Info::default(),
            ),
        };
        if saved.is_some() {
            steps = link_steps(card.enabled);
            steps.append(&mut vec![Step::EndPart]);
            let mut rest: Vec<Step> = Vec::new();
            if card.enabled {
                rest = self.apply_steps(&card);
            }
            steps.append(&mut rest);
        }
        self.cards.put(card);
        job.steps = steps;
    }
}

/// Does the bookkeeping of a step in a card.
fn book_card(mut card: NetCardInfo, step: &Step) -> (r: NetCardInfo)
    ensures
        r@ == booked_card(card@, *step),
{
    match step {
        Step::PutEnabled(up) => {
            card.enabled = *up;
        },
        Step::PutIpv4(info) => {
            card.ipv4 = *info;
        },
        Step::PutIpv6(info) => {
            card.ipv6 = *info;
        },
        Step::LeaseIpv4(lease) => {
            card.ipv4.ip = lease.ip;
            card.ipv4.netmask = lease.netmask;
            card.ipv4.gateway = lease.gateway;
        },
        Step::LeaseDns4(lease) => {
            card.ipv4.primary_dns = lease.primary_dns;
            card.ipv4.secondary_dns = lease.secondary_dns;
        },
        Step::LeaseIpv6(lease) => {
            card.ipv6.ip = lease.ip;
            card.ipv6.prefix_len = lease.prefix_len;
            card.ipv6.gateway = lease.gateway;
        },
        Step::LeaseDns6(lease) => {
            card.ipv6.primary_dns = lease.primary_dns;
            card.ipv6.secondary_dns = lease.secondary_dns;
        },
        _ => {},
    }
    card
}

}
