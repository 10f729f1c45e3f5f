//! Lists of steps: what the plans are made of.
use super::super::actor::{
    has_address4, has_address6, ipv4_plan, ipv6_plan, lease4_plan, lease6_plan, opt, past_part,
    Action, Step,
};
use crate::{Ipv4Info, Ipv6Info};
use vstd::prelude::*;

verus! {

/// What is left behind a part is an end of the steps.
pub proof fn lemma_past_part(steps: Seq<Step>) -> (i: int)
    ensures
        past_part(steps) matches Some(rest) ==> 0 < i <= steps.len() && rest == steps.skip(i)
            && steps[i - 1] is EndPart,
        past_part(steps) is None ==> forall|k: int|
            0 <= k < steps.len() ==> !(#[trigger] steps[k] is EndPart),
    decreases steps.len(),
{
    if steps.len() == 0 {
        0
    } else if steps[0] is EndPart {
        assert(steps.drop_first() =~= steps.skip(1));
        1
    } else {
        let i = lemma_past_part(steps.drop_first());
        if past_part(steps) is Some {
            assert(steps.drop_first().skip(i) =~= steps.skip(i + 1));
        } else {
            assert forall|k: int| 0 <= k < steps.len() implies !(#[trigger] steps[k] is EndPart) by {
                if k > 0 {
                    assert(steps[k] == steps.drop_first()[k - 1]);
                }
            }
        }
        i + 1
    }
}

/// Whether every step of a list is of one kind.
pub open spec fn all_of(steps: Seq<Step>, p: spec_fn(Step) -> bool) -> bool {
    forall|k: int| 0 <= k < steps.len() ==> p(#[trigger] steps[k])
}

pub broadcast proof fn lemma_all_of_add(a: Seq<Step>, b: Seq<Step>, p: spec_fn(Step) -> bool)
    requires
        all_of(a, p),
        all_of(b, p),
    ensures
        #[trigger] all_of(a + b, p),
{
}

pub broadcast proof fn lemma_all_of_opt(b: bool, step: Step, p: spec_fn(Step) -> bool)
    requires
        b ==> p(step),
    ensures
        #[trigger] all_of(opt(b, step), p),
{
}

/// The steps that an IPv4 plan can hold.
pub proof fn lemma_ipv4_plan(client: bool, old: Ipv4Info, new: Ipv4Info, p: spec_fn(Step) -> bool)
    requires
        client ==> p(Step::Must(Action::StopDhcp4)),
        p(Step::Try(Action::DelIpv4Address(old.ip, old.netmask))),
        p(Step::Try(Action::DelIpv4Gateway(old.gateway))),
        p(Step::PutIpv4(new)),
        p(Step::Save),
        new.enabled && !new.use_dhcp && has_address4(new) ==> p(
            Step::Must(Action::SetIpv4Address(new.ip, new.netmask)),
        ),
        new.enabled && !new.use_dhcp ==> p(Step::Must(Action::SetIpv4Gateway(new.gateway))),
        new.enabled && !new.auto_dns ==> p(
            Step::Must(Action::UpdateIpv4Dns(new.primary_dns, new.secondary_dns)),
        ),
        new.enabled && client ==> p(Step::Must(Action::StartDhcp4)),
    ensures
        all_of(ipv4_plan(client, old, new), p),
{
    broadcast use {lemma_all_of_add, lemma_all_of_opt};

    assert(all_of(seq![Step::PutIpv4(new)], p));
    assert(all_of(seq![Step::Save], p));
}

/// The steps that an IPv6 plan can hold.
pub proof fn lemma_ipv6_plan(client: bool, old: Ipv6Info, new: Ipv6Info, p: spec_fn(Step) -> bool)
    requires
        client ==> p(Step::Must(Action::StopDhcp6)),
        p(Step::Try(Action::DelIpv6Address(old.ip, old.prefix_len))),
        p(Step::Try(Action::DelIpv6Gateway(old.gateway))),
        p(Step::PutIpv6(new)),
        p(Step::Save),
        new.enabled && !new.use_dhcp && has_address6(new) ==> p(
            Step::Must(Action::SetIpv6Address(new.ip, new.prefix_len)),
        ),
        new.enabled && !new.use_dhcp ==> p(Step::Must(Action::SetIpv6Gateway(new.gateway))),
        new.enabled && !new.auto_dns ==> p(
            Step::Must(Action::UpdateIpv6Dns(new.primary_dns, new.secondary_dns)),
        ),
        new.enabled && client ==> p(Step::Must(Action::StartDhcp6)),
    ensures
        all_of(ipv6_plan(client, old, new), p),
{
    broadcast use {lemma_all_of_add, lemma_all_of_opt};

    assert(all_of(seq![Step::PutIpv6(new)], p));
    assert(all_of(seq![Step::Save], p));
}

/// The steps that taking in a DHCPv4 lease can hold.
pub proof fn lemma_lease4_plan(ipv4: Ipv4Info, lease: Ipv4Info, p: spec_fn(Step) -> bool)
    requires
        ipv4.use_dhcp ==> p(Step::Must(Action::SetIpv4Address(lease.ip, lease.netmask))),
        ipv4.use_dhcp ==> p(Step::Must(Action::SetIpv4Gateway(lease.gateway))),
        ipv4.use_dhcp ==> p(Step::LeaseIpv4(lease)),
        ipv4.auto_dns ==> p(
            Step::Must(Action::UpdateIpv4Dns(lease.primary_dns, lease.secondary_dns)),
        ),
        ipv4.auto_dns ==> p(Step::LeaseDns4(lease)),
        p(Step::Save),
    ensures
        all_of(lease4_plan(ipv4, lease), p),
{
    broadcast use {lemma_all_of_add, lemma_all_of_opt};

    assert(ipv4.use_dhcp ==> all_of(seq![Step::LeaseIpv4(lease)], p));
    assert(ipv4.auto_dns ==> all_of(
        seq![
            Step::Must(Action::UpdateIpv4Dns(lease.primary_dns, lease.secondary_dns)),
            Step::LeaseDns4(lease),
        ],
        p,
    ));
    assert(all_of(Seq::<Step>::empty(), p));
    assert(all_of(seq![Step::Save], p));
}

/// The steps that taking in a DHCPv6 lease can hold.
pub proof fn lemma_lease6_plan(ipv6: Ipv6Info, lease: Ipv6Info, p: spec_fn(Step) -> bool)
    requires
        ipv6.use_dhcp ==> p(Step::Must(Action::SetIpv6Address(lease.ip, lease.prefix_len))),
        ipv6.use_dhcp ==> p(Step::Must(Action::SetIpv6Gateway(lease.gateway))),
        ipv6.use_dhcp ==> p(Step::LeaseIpv6(lease)),
        ipv6.auto_dns ==> p(
            Step::Must(Action::UpdateIpv6Dns(lease.primary_dns, lease.secondary_dns)),
        ),
        ipv6.auto_dns ==> p(Step::LeaseDns6(lease)),
        p(Step::Save),
    ensures
        all_of(lease6_plan(ipv6, lease), p),
{
    broadcast use {lemma_all_of_add, lemma_all_of_opt};

    assert(ipv6.use_dhcp ==> all_of(seq![Step::LeaseIpv6(lease)], p));
    assert(ipv6.auto_dns ==> all_of(
        seq![
            Step::Must(Action::UpdateIpv6Dns(lease.primary_dns, lease.secondary_dns)),
            Step::LeaseDns6(lease),
        ],
        p,
    ));
    assert(all_of(Seq::<Step>::empty(), p));
    assert(all_of(seq![Step::Save], p));
}

}
