//! The watch on the kernel's links.
use super::netlink::{first_name, link_name, LinkMessage};
use vstd::prelude::*;

verus! {

/// The kernel has reported a link.
#[derive(Debug, PartialEq, Eq)]
pub struct LinkEvent {
    pub iface_name: String,
    /// Whether the link is there, new or changed; else it is gone.
    pub added: bool,
}

impl Clone for LinkEvent {
    fn clone(&self) -> (r: Self)
        ensures
            r == *self,
    {
        LinkEvent { iface_name: self.iface_name.clone(), added: self.added }
    }
}

/// A message of the kernel, as far as it is of interest.
#[derive(Debug, PartialEq, Eq)]
pub enum KernelMessage {
    /// A link is there.
    NewLink(LinkMessage),
    /// A link is gone.
    DelLink(LinkMessage),
    /// Anything else.
    Other,
}

/// The name that a message reports and whether its link is there. Only messages on
/// links that have a name report anything.
pub open spec fn reported(msg: KernelMessage) -> Option<(Seq<char>, bool)> {
    match msg {
        KernelMessage::NewLink(link) => match first_name(link.attributes@) {
            Some(name) => Some((name, true)),
            None => None,
        },
        KernelMessage::DelLink(link) => match first_name(link.attributes@) {
            Some(name) => Some((name, false)),
            None => None,
        },
        KernelMessage::Other => None,
    }
}

/// A link that is there is reported as there, and one that is gone as gone, each under
/// its name; a link without a name and any other message report nothing.
pub proof fn law_reported(link: LinkMessage, name: Seq<char>, added: bool)
    ensures
        reported(KernelMessage::NewLink(link)) == Some((name, added)) <==> first_name(
            link.attributes@,
        ) == Some(name) && added,
        reported(KernelMessage::DelLink(link)) == Some((name, added)) <==> first_name(
            link.attributes@,
        ) == Some(name) && !added,
        reported(KernelMessage::NewLink(link)) is None <==> first_name(link.attributes@) is None,
        reported(KernelMessage::DelLink(link)) is None <==> first_name(link.attributes@) is None,
        reported(KernelMessage::Other) is None,
{
}

/// What a message reports.
pub fn parse_link_event(msg: &KernelMessage) -> (r: Option<LinkEvent>)
    ensures
        match r {
            Some(ev) => reported(*msg) == Some((ev.iface_name@, ev.added)),
            None => reported(*msg) is None,
        },
{
    match msg {
        KernelMessage::NewLink(link) => match link_name(link) {
            Some(iface_name) => Some(LinkEvent { iface_name, added: true }),
            None => None,
        },
        KernelMessage::DelLink(link) => match link_name(link) {
            Some(iface_name) => Some(LinkEvent { iface_name, added: false }),
            None => None,
        },
        KernelMessage::Other => None,
    }
}

/// What the watch can wake up to.
#[derive(Debug, PartialEq, Eq)]
pub enum Wake {
    /// It is told to stop.
    Stop,
    /// The kernel has sent a message.
    Message(KernelMessage),
    /// The kernel's messages have ended.
    Closed,
    /// An event could not be handed on: nobody takes it.
    NotSent,
}

/// What the watch does then.
#[derive(Debug, PartialEq, Eq)]
pub enum WatchStep {
    /// It hands on an event, then waits.
    Send(LinkEvent),
    /// It waits.
    Wait,
    /// It ends.
    Exit,
}

/// The watch on the kernel's links: started at most once.
pub struct LinkMonitor {
    started: bool,
}

impl LinkMonitor {
    /// Whether the watch has been started.
    pub closed spec fn started(&self) -> bool {
        self.started
    }

    /// A watch that has not been started.
    pub fn new() -> (r: Self)
        ensures
            !r.started(),
    {
        LinkMonitor { started: false }
    }

    /// Starts the watch, and says whether its task is to be spawned: not where it has
    /// been started before.
    pub fn start(&mut self) -> (spawn: bool)
        ensures
            final(self).started(),
            spawn == !old(self).started(),
    {
        let spawn = !self.started;
        self.started = true;
        spawn
    }

    /// What the task does when it wakes up.
    pub fn step(wake: Wake) -> (r: WatchStep)
        ensures
            match wake {
                Wake::Message(msg) => match r {
                    WatchStep::Send(ev) => reported(msg) == Some((ev.iface_name@, ev.added)),
                    WatchStep::Wait => reported(msg) is None,
                    WatchStep::Exit => false,
                },
                _ => r is Exit,
            },
    {
        match wake {
            Wake::Message(msg) => match parse_link_event(&msg) {
                Some(ev) => WatchStep::Send(ev),
                None => WatchStep::Wait,
            },
            _ => WatchStep::Exit,
        }
    }
}

}
