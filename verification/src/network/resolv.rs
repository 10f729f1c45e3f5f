//! The DNS servers of interfaces, as lines of the resolver's configuration file.
//!
//! The entries of an interface are marked with its name. Updating its servers of one
//! family replaces its entries of that family and leaves every other line as it is.
use crate::addr::{
    ipv4_text, ipv6_text, is_address_char, lemma_ipv4_text_chars, lemma_ipv6_text_chars,
};
use crate::text::{
    chars_of, ends_with, first_index, holds, is_white_space, lemma_first_index,
    lemma_first_index_unique, lemma_trimmed_contains, lines, lines_of, part, starts_with, string_of,
    strip_cr, texts, trim, trim_end, trim_start, trimmed, unlines,
};
use crate::{Ipv4Addr, Ipv6Addr};
use vstd::prelude::*;

verus! {

/// The path of the resolver's configuration file.
pub const RESOLV_PATH: &'static str = "/etc/resolv.conf";

/// What the entries of an interface end in.
pub open spec fn marker(iface: Seq<char>) -> Seq<char> {
    seq!['#'] + iface
}

/// The address that an entry shows, where `line` is an entry of the interface.
pub open spec fn address_part(line: Seq<char>, iface: Seq<char>) -> Seq<char> {
    let t = trimmed(line);
    trimmed(t.subrange("nameserver "@.len() as int, t.len() - marker(iface).len()))
}

/// Whether `line` is an entry of the interface, of the one family or the other. An
/// address with a dot and without a colon is an IPv4 address.
pub open spec fn is_entry(line: Seq<char>, iface: Seq<char>, is_ipv4: bool) -> bool {
    let t = trimmed(line);
    let address = address_part(line, iface);
    &&& "nameserver "@.is_prefix_of(t)
    &&& marker(iface).is_suffix_of(t)
    &&& (address.contains('.') && !address.contains(':')) == is_ipv4
}

/// The lines that are not entries of the interface of that family.
pub open spec fn others(ls: Seq<Seq<char>>, iface: Seq<char>, is_ipv4: bool) -> Seq<Seq<char>>
    decreases ls.len(),
{
    if ls.len() == 0 {
        seq![]
    } else {
        let front = others(ls.drop_last(), iface, is_ipv4);
        if is_entry(ls.last(), iface, is_ipv4) {
            front
        } else {
            front.push(ls.last())
        }
    }
}

/// The lines that are entries of the interface of that family.
pub open spec fn entries(ls: Seq<Seq<char>>, iface: Seq<char>, is_ipv4: bool) -> Seq<Seq<char>>
    decreases ls.len(),
{
    if ls.len() == 0 {
        seq![]
    } else {
        let front = entries(ls.drop_last(), iface, is_ipv4);
        if is_entry(ls.last(), iface, is_ipv4) {
            front.push(ls.last())
        } else {
            front
        }
    }
}

/// The entry of an interface for an address.
pub open spec fn entry(iface: Seq<char>, address: Seq<char>) -> Seq<char> {
    "nameserver "@ + address + seq![' '] + marker(iface)
}

/// The entries for two addresses, of which either may be empty and is then left out.
pub open spec fn new_entries(
    iface: Seq<char>,
    primary: Seq<char>,
    secondary: Seq<char>,
) -> Seq<Seq<char>> {
    (if primary.len() > 0 {
        seq![entry(iface, primary)]
    } else {
        seq![]
    }) + (if secondary.len() > 0 {
        seq![entry(iface, secondary)]
    } else {
        seq![]
    })
}

/// The lines of the file after an update.
pub open spec fn updated_lines(
    content: Seq<char>,
    iface: Seq<char>,
    primary: Seq<char>,
    secondary: Seq<char>,
    is_ipv4: bool,
) -> Seq<Seq<char>> {
    others(lines_of(content), iface, is_ipv4) + new_entries(iface, primary, secondary)
}

/// The text of an address; none for the address that stands for none.
pub open spec fn ipv4_or_empty(a: Ipv4Addr) -> Seq<char> {
    if a == Ipv4Addr::zero() {
        seq![]
    } else {
        ipv4_text(a)
    }
}

pub open spec fn ipv6_or_empty(a: Ipv6Addr) -> Seq<char> {
    if a == Ipv6Addr::zero() {
        seq![]
    } else {
        ipv6_text(a)
    }
}

/// The text of an address; none for the address that stands for none.
fn fmt_ipv4_or_empty(a: Ipv4Addr) -> (r: String)
    ensures
        r@ == ipv4_or_empty(a),
{
    if a.is_unspecified() {
        let r = String::new();
        assert(r@ =~= ipv4_or_empty(a));
        r
    } else {
        string_of(&a.text())
    }
}

fn fmt_ipv6_or_empty(a: Ipv6Addr) -> (r: String)
    ensures
        r@ == ipv6_or_empty(a),
{
    if a.is_unspecified() {
        let r = String::new();
        assert(r@ =~= ipv6_or_empty(a));
        r
    } else {
        string_of(&a.text())
    }
}

/// The two ends of an entry do not overlap: the one has no mark, the other starts with
/// one.
proof fn lemma_ends_apart(t: Seq<char>, iface: Seq<char>)
    requires
        "nameserver "@.is_prefix_of(t),
        marker(iface).is_suffix_of(t),
    ensures
        "nameserver "@.len() + marker(iface).len() <= t.len(),
{
    reveal_strlit("nameserver ");
    let p = "nameserver "@;
    let m = marker(iface);
    let at = t.len() - m.len();
    assert(m[0] == '#');
    assert(t.subrange(at, t.len() as int)[0] == t[at]);
    if at < p.len() {
        assert(t.subrange(0, p.len() as int)[at] == p[at]);
    }
}

/// Whether `line` is an entry of the interface of that family.
fn entry_of(line: &Vec<char>, mark: &Vec<char>, is_ipv4: bool, Ghost(iface): Ghost<Seq<char>>) -> (r:
    bool)
    requires
        mark@ == marker(iface),
    ensures
        r == is_entry(line@, iface, is_ipv4),
{
    let t = trim(line);
    let prefix = chars_of("nameserver ");
    if starts_with(&t, &prefix) && ends_with(&t, mark) {
        proof {
            lemma_ends_apart(t@, iface);
        }
        let address = trim(&part(&t, prefix.len(), t.len() - mark.len()));
        (holds(&address, '.') && !holds(&address, ':')) == is_ipv4
    } else {
        false
    }
}

/// Appends a line.
fn push_line(out: &mut Vec<char>, line: &Vec<char>, Ghost(before): Ghost<Seq<Seq<char>>>)
    requires
        old(out)@ == unlines(before),
    ensures
        final(out)@ == unlines(before.push(line@)),
{
    let mut copy = part(line, 0, line.len());
    out.append(&mut copy);
    out.push('\n');
    proof {
        let after = before.push(line@);
        assert(after.drop_last() =~= before);
        assert(line@.subrange(0, line@.len() as int) =~= line@);
        assert(out@ =~= unlines(before) + line@.push('\n'));
    }
}

/// Appends the entry for an address, unless it is empty.
fn push_entry(
    out: &mut Vec<char>,
    mark: &Vec<char>,
    address: &Vec<char>,
    Ghost(before): Ghost<Seq<Seq<char>>>,
    Ghost(iface): Ghost<Seq<char>>,
)
    requires
        old(out)@ == unlines(before),
        mark@ == marker(iface),
    ensures
        final(out)@ == unlines(
            before + if address@.len() > 0 {
                seq![entry(iface, address@)]
            } else {
                seq![]
            },
        ),
{
    if address.len() > 0 {
        let mut line = chars_of("nameserver ");
        line.append(&mut part(address, 0, address.len()));
        line.push(' ');
        line.append(&mut part(mark, 0, mark.len()));
        proof {
            assert(address@.subrange(0, address@.len() as int) =~= address@);
            assert(mark@.subrange(0, mark@.len() as int) =~= mark@);
            assert(line@ =~= entry(iface, address@));
            assert(before.push(line@) =~= before + seq![line@]);
        }
        push_line(out, &line, Ghost(before));
    } else {
        assert(before + Seq::<Seq<char>>::empty() =~= before);
    }
}

/// The content of the file after an update of the servers of one family. An address that
/// is empty is left out.
pub fn update_internal(
    content: &str,
    iface_name: &str,
    primary_dns: &str,
    secondary_dns: &str,
    is_ipv4: bool,
) -> (r: String)
    ensures
        r@ == unlines(updated_lines(content@, iface_name@, primary_dns@, secondary_dns@, is_ipv4)),
{
    let ghost iface = iface_name@;
    let primary = chars_of(primary_dns);
    let secondary = chars_of(secondary_dns);
    let mut mark: Vec<char> = vec!['#'];
    mark.append(&mut chars_of(iface_name));
    assert(mark@ =~= marker(iface));
    let all = lines(&chars_of(content));
    let mut out: Vec<char> = Vec::new();
    let mut i: usize = 0;
    assert(out@ =~= unlines(Seq::empty()));
    assert(texts(all@).take(0) =~= Seq::empty());
    while i < all.len()
        invariant
            i <= all@.len(),
            mark@ == marker(iface),
            out@ == unlines(others(texts(all@).take(i as int), iface, is_ipv4)),
        decreases all.len() - i,
    {
        proof {
            let t = texts(all@).take(i + 1);
            assert(t.drop_last() =~= texts(all@).take(i as int));
            assert(t.last() == all@[i as int]@);
        }
        if !entry_of(&all[i], &mark, is_ipv4, Ghost(iface)) {
            push_line(
                &mut out,
                &all[i],
                Ghost(others(texts(all@).take(i as int), iface, is_ipv4)),
            );
        }
        i += 1;
    }
    assert(texts(all@).take(i as int) =~= texts(all@));
    let ghost kept = others(lines_of(content@), iface, is_ipv4);
    push_entry(&mut out, &mark, &primary, Ghost(kept), Ghost(iface));
    let ghost first = if primary@.len() > 0 {
        seq![entry(iface, primary@)]
    } else {
        seq![]
    };
    push_entry(&mut out, &mark, &secondary, Ghost(kept + first), Ghost(iface));
    proof {
        let second = if secondary@.len() > 0 {
            seq![entry(iface, secondary@)]
        } else {
            seq![]
        };
        assert(kept + first + second =~= kept + (first + second));
    }
    string_of(&out)
}

/// The content of the resolver's file after the IPv4 servers of an interface have been
/// replaced.
pub fn update_ipv4_dns(content: &str, iface_name: &str, primary: Ipv4Addr, secondary: Ipv4Addr) -> (r:
    String)
    ensures
        r@ == unlines(
            updated_lines(
                content@,
                iface_name@,
                ipv4_or_empty(primary),
                ipv4_or_empty(secondary),
                true,
            ),
        ),
{
    let p = fmt_ipv4_or_empty(primary);
    let s = fmt_ipv4_or_empty(secondary);
    update_internal(content, iface_name, p.as_str(), s.as_str(), true)
}

/// The content of the resolver's file after the IPv6 servers of an interface have been
/// replaced.
pub fn update_ipv6_dns(content: &str, iface_name: &str, primary: Ipv6Addr, secondary: Ipv6Addr) -> (r:
    String)
    ensures
        r@ == unlines(
            updated_lines(
                content@,
                iface_name@,
                ipv6_or_empty(primary),
                ipv6_or_empty(secondary),
                false,
            ),
        ),
{
    let p = fmt_ipv6_or_empty(primary);
    let s = fmt_ipv6_or_empty(secondary);
    update_internal(content, iface_name, p.as_str(), s.as_str(), false)
}

// ---------------------------------------------------------------------------
// Laws
// ---------------------------------------------------------------------------

/// A name that can mark entries: it has no line feed, and no white space at its end.
pub open spec fn can_mark(iface: Seq<char>) -> bool {
    !iface.contains('\n') && (iface.len() > 0 ==> !is_white_space(iface.last()))
}

/// A line that is read back as it was written.
pub open spec fn is_whole(line: Seq<char>) -> bool {
    !line.contains('\n') && (line.len() > 0 ==> line.last() != '\r')
}

/// Whether an address text is empty or one of the family.
pub open spec fn of_family(address: Seq<char>, is_ipv4: bool) -> bool {
    &&& forall|i: int| 0 <= i < address.len() ==> is_address_char(#[trigger] address[i])
    &&& address.len() > 0 ==> (address.contains('.') && !address.contains(':')) == is_ipv4
}

/// Lines that are whole are read back as they were written.
pub proof fn law_lines_read_back(ls: Seq<Seq<char>>)
    requires
        forall|i: int| 0 <= i < ls.len() ==> is_whole(#[trigger] ls[i]),
    ensures
        lines_of(unlines(ls)) == ls,
    decreases ls.len(),
{
    if ls.len() > 0 {
        let rest = ls.drop_first();
        let first = ls[0];
        lemma_unlines_front(ls);
        let s = unlines(ls);
        assert(s =~= first + seq!['\n'] + unlines(rest));
        assert forall|k: int| 0 <= k < first.len() implies s[k] != '\n' by {
            assert(s[k] == first[k]);
        }
        assert(s[first.len() as int] == '\n');
        lemma_first_index_unique(s, '\n', first.len() as int);
        assert(s.take(first.len() as int) =~= first);
        assert(s.skip(first.len() as int + 1) =~= unlines(rest));
        assert(is_whole(ls[0]));
        assert forall|i: int| 0 <= i < rest.len() implies is_whole(#[trigger] rest[i]) by {
            assert(rest[i] == ls[i + 1]);
        }
        law_lines_read_back(rest);
        assert(seq![first] + rest =~= ls);
    } else {
        assert(lines_of(unlines(ls)) =~= ls);
    }
}

proof fn lemma_unlines_front(ls: Seq<Seq<char>>)
    requires
        ls.len() > 0,
    ensures
        unlines(ls) == ls[0].push('\n') + unlines(ls.drop_first()),
    decreases ls.len(),
{
    if ls.len() == 1 {
        assert(ls.drop_last() =~= Seq::empty());
        assert(ls.drop_first() =~= Seq::empty());
        assert(unlines(ls) =~= ls[0].push('\n') + unlines(ls.drop_first()));
    } else {
        let front = ls.drop_last();
        lemma_unlines_front(front);
        assert(front.drop_first() =~= ls.drop_first().drop_last());
        assert(unlines(ls) =~= ls[0].push('\n') + unlines(ls.drop_first()));
    }
}

/// No line has a line feed in it.
proof fn lemma_lines_have_no_feed(s: Seq<char>)
    ensures
        forall|i: int| 0 <= i < lines_of(s).len() ==> !(#[trigger] lines_of(s)[i]).contains('\n'),
    decreases s.len(),
{
    lemma_first_index(s, '\n');
    let n = first_index(s, '\n');
    if s.len() > 0 && n < s.len() {
        let rest = lines_of(s.skip(n + 1));
        lemma_lines_have_no_feed(s.skip(n + 1));
        let first = strip_cr(s.take(n));
        assert(!first.contains('\n')) by {
            if first.contains('\n') {
                let k = choose|k: int| 0 <= k < first.len() && first[k] == '\n';
                assert(first[k] == s[k]);
            }
        }
        assert forall|i: int| 0 <= i < lines_of(s).len() implies !(#[trigger] lines_of(
            s,
        )[i]).contains('\n') by {
            if i > 0 {
                assert(lines_of(s)[i] == rest[i - 1]);
            }
        }
    }
}

proof fn lemma_others_are_lines(ls: Seq<Seq<char>>, iface: Seq<char>, is_ipv4: bool)
    ensures
        forall|i: int|
            0 <= i < others(ls, iface, is_ipv4).len() ==> ls.contains(
                #[trigger] others(ls, iface, is_ipv4)[i],
            ) && !is_entry(others(ls, iface, is_ipv4)[i], iface, is_ipv4),
    decreases ls.len(),
{
    if ls.len() > 0 {
        let front = ls.drop_last();
        lemma_others_are_lines(front, iface, is_ipv4);
        let o = others(ls, iface, is_ipv4);
        let fo = others(front, iface, is_ipv4);
        assert forall|i: int| 0 <= i < o.len() implies ls.contains(#[trigger] o[i]) && !is_entry(
            o[i],
            iface,
            is_ipv4,
        ) by {
            if i < fo.len() {
                assert(o[i] == fo[i]);
                let k = choose|k: int| 0 <= k < front.len() && front[k] == fo[i];
                assert(ls[k] == o[i]);
            } else {
                assert(ls[ls.len() - 1] == o[i]);
            }
        }
    }
}

proof fn lemma_split_add(a: Seq<Seq<char>>, b: Seq<Seq<char>>, iface: Seq<char>, is_ipv4: bool)
    ensures
        others(a + b, iface, is_ipv4) == others(a, iface, is_ipv4) + others(b, iface, is_ipv4),
        entries(a + b, iface, is_ipv4) == entries(a, iface, is_ipv4) + entries(b, iface, is_ipv4),
    decreases b.len(),
{
    if b.len() == 0 {
        assert(a + b =~= a);
        assert(others(a, iface, is_ipv4) + others(b, iface, is_ipv4) =~= others(a, iface, is_ipv4));
        assert(entries(a, iface, is_ipv4) + entries(b, iface, is_ipv4) =~= entries(
            a,
            iface,
            is_ipv4,
        ));
    } else {
        assert((a + b).drop_last() =~= a + b.drop_last());
        lemma_split_add(a, b.drop_last(), iface, is_ipv4);
        assert(others(a + b, iface, is_ipv4) =~= others(a, iface, is_ipv4) + others(
            b,
            iface,
            is_ipv4,
        ));
        assert(entries(a + b, iface, is_ipv4) =~= entries(a, iface, is_ipv4) + entries(
            b,
            iface,
            is_ipv4,
        ));
    }
}

/// Where no line is an entry, all lines are others.
proof fn lemma_none_entry(ls: Seq<Seq<char>>, iface: Seq<char>, is_ipv4: bool)
    requires
        forall|i: int| 0 <= i < ls.len() ==> !is_entry(#[trigger] ls[i], iface, is_ipv4),
    ensures
        others(ls, iface, is_ipv4) == ls,
        entries(ls, iface, is_ipv4) == Seq::<Seq<char>>::empty(),
    decreases ls.len(),
{
    if ls.len() > 0 {
        lemma_none_entry(ls.drop_last(), iface, is_ipv4);
        assert(!is_entry(ls[ls.len() - 1], iface, is_ipv4));
        assert(others(ls, iface, is_ipv4) =~= ls);
    } else {
        assert(others(ls, iface, is_ipv4) =~= ls);
    }
}

/// Where every line is an entry, none are others.
proof fn lemma_all_entry(ls: Seq<Seq<char>>, iface: Seq<char>, is_ipv4: bool)
    requires
        forall|i: int| 0 <= i < ls.len() ==> is_entry(#[trigger] ls[i], iface, is_ipv4),
    ensures
        others(ls, iface, is_ipv4) == Seq::<Seq<char>>::empty(),
        entries(ls, iface, is_ipv4) == ls,
    decreases ls.len(),
{
    if ls.len() > 0 {
        lemma_all_entry(ls.drop_last(), iface, is_ipv4);
        assert(is_entry(ls[ls.len() - 1], iface, is_ipv4));
        assert(entries(ls, iface, is_ipv4) =~= ls);
    } else {
        assert(entries(ls, iface, is_ipv4) =~= ls);
    }
}

proof fn lemma_address_char(c: char)
    requires
        is_address_char(c),
    ensures
        !is_white_space(c),
        c != '\n',
{
}

/// What has no white space at its two ends is not changed by trimming.
proof fn lemma_trimmed_same(s: Seq<char>)
    requires
        s.len() > 0,
        !is_white_space(s[0]),
        !is_white_space(s.last()),
    ensures
        trimmed(s) == s,
{
}

/// A new entry is an entry of its interface and family, and is read back as it was
/// written.
proof fn lemma_new_entry(iface: Seq<char>, address: Seq<char>, is_ipv4: bool)
    requires
        can_mark(iface),
        of_family(address, is_ipv4),
        address.len() > 0,
    ensures
        is_entry(entry(iface, address), iface, is_ipv4),
        is_whole(entry(iface, address)),
        trimmed(entry(iface, address)) == entry(iface, address),
{
    reveal_strlit("nameserver ");
    let p = "nameserver "@;
    let m = marker(iface);
    let e = entry(iface, address);
    assert(e.len() == 11 + address.len() + 1 + m.len());
    assert(e[0] == 'n');
    assert(e.last() == m.last());
    assert(!is_white_space(e.last())) by {
        if iface.len() > 0 {
            assert(m.last() == iface.last());
        } else {
            assert(m.last() == '#');
        }
    }
    lemma_trimmed_same(e);
    assert(p =~= e.subrange(0, 11));
    assert(m =~= e.subrange(e.len() - m.len(), e.len() as int));
    let middle = e.subrange(11, e.len() - m.len());
    assert(middle =~= address + seq![' ']);
    lemma_address_char(address[0]);
    lemma_address_char(address[address.len() - 1]);
    assert(trim_start(middle) == middle);
    assert(middle.drop_last() =~= address);
    assert(trim_end(middle) == trim_end(address));
    assert(trimmed(middle) == address);
    assert(!e.contains('\n')) by {
        if e.contains('\n') {
            let k = choose|k: int| 0 <= k < e.len() && e[k] == '\n';
            if k < 11 {
                assert(e[k] == p[k]);
            } else if k < 11 + address.len() {
                assert(e[k] == address[k - 11]);
                lemma_address_char(address[k - 11]);
            } else if k > 11 + address.len() {
                assert(e[k] == m[k - 12 - address.len()]);
                if k > 12 + address.len() {
                    assert(m[k - 12 - address.len()] == iface[k - 13 - address.len()]);
                }
            }
        }
    }
}

proof fn lemma_new_entries(iface: Seq<char>, p: Seq<char>, s: Seq<char>, is_ipv4: bool)
    requires
        can_mark(iface),
        of_family(p, is_ipv4),
        of_family(s, is_ipv4),
    ensures
        forall|i: int|
            0 <= i < new_entries(iface, p, s).len() ==> is_entry(
                #[trigger] new_entries(iface, p, s)[i],
                iface,
                is_ipv4,
            ) && is_whole(new_entries(iface, p, s)[i]),
{
    if p.len() > 0 {
        lemma_new_entry(iface, p, is_ipv4);
    }
    if s.len() > 0 {
        lemma_new_entry(iface, s, is_ipv4);
    }
}

/// Whether the lines that an update leaves are read back as they are written: no
/// carriage return is left at the end of one.
pub open spec fn others_whole(content: Seq<char>, iface: Seq<char>, is_ipv4: bool) -> bool {
    forall|i: int|
        0 <= i < others(lines_of(content), iface, is_ipv4).len() ==> (#[trigger] others(
            lines_of(content),
            iface,
            is_ipv4,
        )[i]).len() > 0 ==> others(lines_of(content), iface, is_ipv4)[i].last() != '\r'
}

proof fn lemma_updated_read_back(
    content: Seq<char>,
    iface: Seq<char>,
    p: Seq<char>,
    s: Seq<char>,
    is_ipv4: bool,
)
    requires
        can_mark(iface),
        others_whole(content, iface, is_ipv4),
        of_family(p, is_ipv4),
        of_family(s, is_ipv4),
    ensures
        lines_of(unlines(updated_lines(content, iface, p, s, is_ipv4))) == updated_lines(
            content,
            iface,
            p,
            s,
            is_ipv4,
        ),
{
    let old = lines_of(content);
    let kept = others(old, iface, is_ipv4);
    let new = new_entries(iface, p, s);
    let all = updated_lines(content, iface, p, s, is_ipv4);
    lemma_lines_have_no_feed(content);
    lemma_others_are_lines(old, iface, is_ipv4);
    lemma_new_entries(iface, p, s, is_ipv4);
    assert forall|i: int| 0 <= i < all.len() implies is_whole(#[trigger] all[i]) by {
        if i < kept.len() {
            assert(all[i] == kept[i]);
            let k = choose|k: int| 0 <= k < old.len() && old[k] == kept[i];
            assert(!old[k].contains('\n'));
        } else {
            assert(all[i] == new[i - kept.len()]);
        }
    }
    law_lines_read_back(all);
}

/// An update of the servers of an interface in one family puts exactly the given
/// servers in the place of its entries of that family, and leaves every other line as
/// it was and where it was among the others.
proof fn lemma_replaced(
    content: Seq<char>,
    iface: Seq<char>,
    p: Seq<char>,
    s: Seq<char>,
    is_ipv4: bool,
)
    requires
        can_mark(iface),
        others_whole(content, iface, is_ipv4),
        of_family(p, is_ipv4),
        of_family(s, is_ipv4),
    ensures
        ({
            let after = lines_of(unlines(updated_lines(content, iface, p, s, is_ipv4)));
            &&& entries(after, iface, is_ipv4) == new_entries(iface, p, s)
            &&& others(after, iface, is_ipv4) == others(lines_of(content), iface, is_ipv4)
        }),
{
    let old = lines_of(content);
    let kept = others(old, iface, is_ipv4);
    let new = new_entries(iface, p, s);
    lemma_updated_read_back(content, iface, p, s, is_ipv4);
    lemma_others_are_lines(old, iface, is_ipv4);
    lemma_new_entries(iface, p, s, is_ipv4);
    lemma_none_entry(kept, iface, is_ipv4);
    lemma_all_entry(new, iface, is_ipv4);
    lemma_split_add(kept, new, iface, is_ipv4);
    assert(Seq::<Seq<char>>::empty() + new =~= new);
    assert(kept + Seq::<Seq<char>>::empty() =~= kept);
}

proof fn lemma_ipv4_family(a: Ipv4Addr)
    ensures
        of_family(ipv4_or_empty(a), true),
{
    lemma_ipv4_text_chars(a);
}

proof fn lemma_ipv6_family(a: Ipv6Addr)
    ensures
        of_family(ipv6_or_empty(a), false),
{
    lemma_ipv6_text_chars(a);
}

/// An update of the IPv4 servers of an interface puts exactly the given servers in the
/// place of its IPv4 entries, and leaves every other line as it was.
pub proof fn law_ipv4_replaced(
    content: Seq<char>,
    iface: Seq<char>,
    primary: Ipv4Addr,
    secondary: Ipv4Addr,
)
    requires
        can_mark(iface),
        others_whole(content, iface, true),
    ensures
        ({
            let p = ipv4_or_empty(primary);
            let s = ipv4_or_empty(secondary);
            let after = lines_of(unlines(updated_lines(content, iface, p, s, true)));
            &&& entries(after, iface, true) == new_entries(iface, p, s)
            &&& others(after, iface, true) == others(lines_of(content), iface, true)
        }),
{
    lemma_ipv4_family(primary);
    lemma_ipv4_family(secondary);
    lemma_replaced(content, iface, ipv4_or_empty(primary), ipv4_or_empty(secondary), true);
}

/// The same of the IPv6 servers.
pub proof fn law_ipv6_replaced(
    content: Seq<char>,
    iface: Seq<char>,
    primary: Ipv6Addr,
    secondary: Ipv6Addr,
)
    requires
        can_mark(iface),
        others_whole(content, iface, false),
    ensures
        ({
            let p = ipv6_or_empty(primary);
            let s = ipv6_or_empty(secondary);
            let after = lines_of(unlines(updated_lines(content, iface, p, s, false)));
            &&& entries(after, iface, false) == new_entries(iface, p, s)
            &&& others(after, iface, false) == others(lines_of(content), iface, false)
        }),
{
    lemma_ipv6_family(primary);
    lemma_ipv6_family(secondary);
    lemma_replaced(content, iface, ipv6_or_empty(primary), ipv6_or_empty(secondary), false);
}

/// Of two updates of one family the second counts: it gives what it would have given
/// without the first. In particular an update that is made twice gives what it gives
/// once, and no entry is there twice.
pub proof fn law_last_update_counts(
    content: Seq<char>,
    iface: Seq<char>,
    p1: Seq<char>,
    s1: Seq<char>,
    p2: Seq<char>,
    s2: Seq<char>,
    is_ipv4: bool,
)
    requires
        can_mark(iface),
        others_whole(content, iface, is_ipv4),
        of_family(p1, is_ipv4) && of_family(s1, is_ipv4),
    ensures
        ({
            let first = unlines(updated_lines(content, iface, p1, s1, is_ipv4));
            unlines(updated_lines(first, iface, p2, s2, is_ipv4)) == unlines(
                updated_lines(content, iface, p2, s2, is_ipv4),
            )
        }),
{
    lemma_replaced(content, iface, p1, s1, is_ipv4);
}

/// Of two updates of the IPv4 servers the second counts.
pub proof fn law_last_ipv4_update_counts(
    content: Seq<char>,
    iface: Seq<char>,
    first: (Ipv4Addr, Ipv4Addr),
    second: (Ipv4Addr, Ipv4Addr),
)
    requires
        can_mark(iface),
        others_whole(content, iface, true),
    ensures
        ({
            let (p1, s1) = (ipv4_or_empty(first.0), ipv4_or_empty(first.1));
            let (p2, s2) = (ipv4_or_empty(second.0), ipv4_or_empty(second.1));
            let once = unlines(updated_lines(content, iface, p1, s1, true));
            unlines(updated_lines(once, iface, p2, s2, true)) == unlines(
                updated_lines(content, iface, p2, s2, true),
            )
        }),
{
    law_ipv4_replaced(content, iface, first.0, first.1);
}

/// Of two updates of the IPv6 servers the second counts.
pub proof fn law_last_ipv6_update_counts(
    content: Seq<char>,
    iface: Seq<char>,
    first: (Ipv6Addr, Ipv6Addr),
    second: (Ipv6Addr, Ipv6Addr),
)
    requires
        can_mark(iface),
        others_whole(content, iface, false),
    ensures
        ({
            let (p1, s1) = (ipv6_or_empty(first.0), ipv6_or_empty(first.1));
            let (p2, s2) = (ipv6_or_empty(second.0), ipv6_or_empty(second.1));
            let once = unlines(updated_lines(content, iface, p1, s1, false));
            unlines(updated_lines(once, iface, p2, s2, false)) == unlines(
                updated_lines(content, iface, p2, s2, false),
            )
        }),
{
    law_ipv6_replaced(content, iface, first.0, first.1);
}

/// Two marks at the end of one line: the one ends in the other.
proof fn lemma_suffixes(t: Seq<char>, a: Seq<char>, b: Seq<char>)
    requires
        a.is_suffix_of(t),
        b.is_suffix_of(t),
    ensures
        a.is_suffix_of(b) || b.is_suffix_of(a),
{
    if a.len() <= b.len() {
        assert(a =~= b.subrange(b.len() - a.len(), b.len() as int)) by {
            assert forall|k: int| 0 <= k < a.len() implies a[k] == b[b.len() - a.len() + k] by {
                assert(a[k] == t.subrange(t.len() - a.len(), t.len() as int)[k]);
                assert(b[b.len() - a.len() + k] == t.subrange(t.len() - b.len(), t.len() as int)[b.len()
                    - a.len() + k]);
            }
        }
    } else {
        assert(b =~= a.subrange(a.len() - b.len(), a.len() as int)) by {
            assert forall|k: int| 0 <= k < b.len() implies b[k] == a[a.len() - b.len() + k] by {
                assert(b[k] == t.subrange(t.len() - b.len(), t.len() as int)[k]);
                assert(a[a.len() - b.len() + k] == t.subrange(t.len() - a.len(), t.len() as int)[a.len()
                    - b.len() + k]);
            }
        }
    }
}

/// Whether no line can be an entry of both: they are of one interface and of different
/// families, or the mark of neither interface ends in the mark of the other.
pub open spec fn apart(iface: Seq<char>, is_ipv4: bool, other: Seq<char>, other_ipv4: bool) -> bool {
    ||| iface == other && is_ipv4 != other_ipv4
    ||| !marker(iface).is_suffix_of(marker(other)) && !marker(other).is_suffix_of(marker(iface))
}

proof fn lemma_foreign_entries(
    ls: Seq<Seq<char>>,
    iface: Seq<char>,
    is_ipv4: bool,
    other: Seq<char>,
    other_ipv4: bool,
)
    requires
        apart(iface, is_ipv4, other, other_ipv4),
    ensures
        entries(others(ls, iface, is_ipv4), other, other_ipv4) == entries(ls, other, other_ipv4),
    decreases ls.len(),
{
    if ls.len() > 0 {
        lemma_foreign_entries(ls.drop_last(), iface, is_ipv4, other, other_ipv4);
        let t = trimmed(ls.last());
        if marker(iface).is_suffix_of(t) && marker(other).is_suffix_of(t) {
            lemma_suffixes(t, marker(iface), marker(other));
        }
        let front = others(ls.drop_last(), iface, is_ipv4);
        assert(front.push(ls.last()).drop_last() =~= front);
    }
}

proof fn lemma_foreign(
    content: Seq<char>,
    iface: Seq<char>,
    p: Seq<char>,
    s: Seq<char>,
    is_ipv4: bool,
    other: Seq<char>,
    other_ipv4: bool,
)
    requires
        can_mark(iface),
        others_whole(content, iface, is_ipv4),
        of_family(p, is_ipv4),
        of_family(s, is_ipv4),
        apart(iface, is_ipv4, other, other_ipv4),
    ensures
        entries(
            lines_of(unlines(updated_lines(content, iface, p, s, is_ipv4))),
            other,
            other_ipv4,
        ) == entries(lines_of(content), other, other_ipv4),
{
    let kept = others(lines_of(content), iface, is_ipv4);
    let new = new_entries(iface, p, s);
    lemma_updated_read_back(content, iface, p, s, is_ipv4);
    lemma_foreign_entries(lines_of(content), iface, is_ipv4, other, other_ipv4);
    lemma_split_add(kept, new, other, other_ipv4);
    lemma_new_entries(iface, p, s, is_ipv4);
    assert forall|i: int| 0 <= i < new.len() implies !is_entry(#[trigger] new[i], other, other_ipv4) by {
        let t = trimmed(new[i]);
        assert(is_entry(new[i], iface, is_ipv4));
        if marker(other).is_suffix_of(t) {
            lemma_suffixes(t, marker(iface), marker(other));
        }
    }
    lemma_none_entry(new, other, other_ipv4);
    assert(entries(kept, other, other_ipv4) + Seq::<Seq<char>>::empty() =~= entries(
        kept,
        other,
        other_ipv4,
    ));
}

/// An update of the IPv4 servers of an interface leaves the entries of every other
/// interface, and its own IPv6 entries, as they were.
pub proof fn law_ipv4_keeps_others(
    content: Seq<char>,
    iface: Seq<char>,
    primary: Ipv4Addr,
    secondary: Ipv4Addr,
    other: Seq<char>,
    other_ipv4: bool,
)
    requires
        can_mark(iface),
        others_whole(content, iface, true),
        apart(iface, true, other, other_ipv4),
    ensures
        ({
            let p = ipv4_or_empty(primary);
            let s = ipv4_or_empty(secondary);
            let after = lines_of(unlines(updated_lines(content, iface, p, s, true)));
            entries(after, other, other_ipv4) == entries(lines_of(content), other, other_ipv4)
        }),
{
    let p = ipv4_or_empty(primary);
    let s = ipv4_or_empty(secondary);
    lemma_ipv4_family(primary);
    lemma_ipv4_family(secondary);
    lemma_foreign(content, iface, p, s, true, other, other_ipv4);
}

/// An update of the IPv6 servers of an interface leaves the entries of every other
/// interface, and its own IPv4 entries, as they were.
pub proof fn law_ipv6_keeps_others(
    content: Seq<char>,
    iface: Seq<char>,
    primary: Ipv6Addr,
    secondary: Ipv6Addr,
    other: Seq<char>,
    other_ipv4: bool,
)
    requires
        can_mark(iface),
        others_whole(content, iface, false),
        apart(iface, false, other, other_ipv4),
    ensures
        ({
            let p = ipv6_or_empty(primary);
            let s = ipv6_or_empty(secondary);
            let after = lines_of(unlines(updated_lines(content, iface, p, s, false)));
            entries(after, other, other_ipv4) == entries(lines_of(content), other, other_ipv4)
        }),
{
    let p = ipv6_or_empty(primary);
    let s = ipv6_or_empty(secondary);
    lemma_ipv6_family(primary);
    lemma_ipv6_family(secondary);
    lemma_foreign(content, iface, p, s, false, other, other_ipv4);
}

// ---------------------------------------------------------------------------
// What an entry is, and what is written
// ---------------------------------------------------------------------------

/// A line is an entry of an interface if, apart from white space at its two ends, it
/// starts with `nameserver `, goes on with anything and ends in `#` and the name of the
/// interface. It is an IPv4 entry if there is a dot and no colon in between, else an
/// IPv6 entry.
pub proof fn law_entry_shape(line: Seq<char>, iface: Seq<char>, between: Seq<char>, is_ipv4: bool)
    ensures
        trimmed(line) == "nameserver "@ + between + "#"@ + iface ==> is_entry(line, iface, is_ipv4)
            == ((between.contains('.') && !between.contains(':')) == is_ipv4),
        is_entry(line, iface, is_ipv4) ==> exists|mid: Seq<char>|
            trimmed(line) == "nameserver "@ + #[trigger] (mid + ("#"@ + iface)),
{
    reveal_strlit("nameserver ");
    reveal_strlit("#");
    let t = trimmed(line);
    let head = "nameserver "@;
    let mark = marker(iface);
    assert("#"@ =~= seq!['#']);
    if t == head + between + "#"@ + iface {
        assert(t =~= head + between + mark);
        assert(head =~= t.subrange(0, head.len() as int));
        assert(mark =~= t.subrange(t.len() - mark.len(), t.len() as int));
        let mid = t.subrange(head.len() as int, t.len() - mark.len());
        assert(mid =~= between);
        lemma_trimmed_contains(mid, '.');
        lemma_trimmed_contains(mid, ':');
    }
    if is_entry(line, iface, is_ipv4) {
        let at = t.len() - mark.len();
        assert(mark =~= t.subrange(at, t.len() as int));
        assert(t[at] == mark[0]);
        assert(head =~= t.subrange(0, head.len() as int));
        assert(at >= head.len()) by {
            if at < head.len() {
                assert(head[at] == t[at]);
                assert(head[at] == '#');
            }
        }
        let mid = t.subrange(head.len() as int, at);
        assert(t =~= head + (mid + ("#"@ + iface)));
    }
}

/// Of the lines of a file each is kept or replaced on its own account: what is kept of
/// two halves is kept of the whole, in the same order, and likewise what is replaced.
pub proof fn law_each_line_on_its_own(
    a: Seq<Seq<char>>,
    b: Seq<Seq<char>>,
    line: Seq<char>,
    iface: Seq<char>,
    is_ipv4: bool,
)
    ensures
        others(a + b, iface, is_ipv4) == others(a, iface, is_ipv4) + others(b, iface, is_ipv4),
        entries(a + b, iface, is_ipv4) == entries(a, iface, is_ipv4) + entries(b, iface, is_ipv4),
        is_entry(line, iface, is_ipv4) ==> others(seq![line], iface, is_ipv4).len() == 0 && entries(
            seq![line],
            iface,
            is_ipv4,
        ) == seq![line],
        !is_entry(line, iface, is_ipv4) ==> others(seq![line], iface, is_ipv4) == seq![line]
            && entries(seq![line], iface, is_ipv4).len() == 0,
{
    lemma_split_add(a, b, iface, is_ipv4);
    assert(seq![line].drop_last() =~= Seq::<Seq<char>>::empty());
    assert(others(Seq::<Seq<char>>::empty(), iface, is_ipv4) =~= Seq::<Seq<char>>::empty());
    assert(entries(Seq::<Seq<char>>::empty(), iface, is_ipv4) =~= Seq::<Seq<char>>::empty());
    assert(Seq::<Seq<char>>::empty().push(line) =~= seq![line]);
}

proof fn lemma_unlines_add(a: Seq<Seq<char>>, b: Seq<Seq<char>>)
    ensures
        unlines(a + b) == unlines(a) + unlines(b),
    decreases b.len(),
{
    if b.len() == 0 {
        assert(a + b =~= a);
        assert(unlines(b) =~= Seq::<char>::empty());
        assert(unlines(a) + Seq::<char>::empty() =~= unlines(a));
    } else {
        lemma_unlines_add(a, b.drop_last());
        assert((a + b).drop_last() =~= a + b.drop_last());
        let x = unlines(a);
        let y = unlines(b.drop_last());
        let z = b.last().push('\n');
        assert(x + y + z =~= x + (y + z));
    }
}

proof fn lemma_unlines_one(line: Seq<char>)
    ensures
        unlines(seq![line]) == line + "\n"@,
{
    reveal_strlit("\n");
    assert(seq![line].drop_last() =~= Seq::<Seq<char>>::empty());
    assert(unlines(Seq::<Seq<char>>::empty()) =~= Seq::<char>::empty());
    assert(unlines(seq![line]) =~= line + "\n"@);
}

/// The file after an update holds the lines that are kept and then, of each of the two
/// addresses that is not empty, a line of its own with the address and the name of the
/// interface.
pub proof fn law_written(
    content: Seq<char>,
    iface: Seq<char>,
    primary: Seq<char>,
    secondary: Seq<char>,
    is_ipv4: bool,
)
    ensures
        ({
            let after = unlines(updated_lines(content, iface, primary, secondary, is_ipv4));
            let kept = unlines(others(lines_of(content), iface, is_ipv4));
            let first = if primary == Seq::<char>::empty() {
                Seq::<char>::empty()
            } else {
                "nameserver "@ + primary + " #"@ + iface + "\n"@
            };
            let second = if secondary == Seq::<char>::empty() {
                Seq::<char>::empty()
            } else {
                "nameserver "@ + secondary + " #"@ + iface + "\n"@
            };
            after == kept + first + second
        }),
{
    reveal_strlit(" #");
    let lines = others(lines_of(content), iface, is_ipv4);
    let none = Seq::<Seq<char>>::empty();
    let e1 = entry(iface, primary);
    let e2 = entry(iface, secondary);
    let n1 = if primary.len() > 0 {
        seq![e1]
    } else {
        none
    };
    let n2 = if secondary.len() > 0 {
        seq![e2]
    } else {
        none
    };
    lemma_unlines_add(lines, n1 + n2);
    lemma_unlines_add(n1, n2);
    lemma_unlines_one(e1);
    lemma_unlines_one(e2);
    assert(unlines(none) =~= Seq::<char>::empty());
    assert(primary.len() == 0 ==> primary =~= Seq::<char>::empty());
    assert(secondary.len() == 0 ==> secondary =~= Seq::<char>::empty());
    assert(e1 + "\n"@ =~= "nameserver "@ + primary + " #"@ + iface + "\n"@);
    assert(e2 + "\n"@ =~= "nameserver "@ + secondary + " #"@ + iface + "\n"@);
    let x = unlines(lines);
    let y = unlines(n1);
    let z = unlines(n2);
    assert(x + (y + z) =~= x + y + z);
}

/// What is written for an address is its text, and nothing for the address of zeros
/// alone.
pub proof fn law_written_address(a4: Ipv4Addr, a6: Ipv6Addr)
    ensures
        a4 == Ipv4Addr::zero() <==> ipv4_or_empty(a4).len() == 0,
        a4 != Ipv4Addr::zero() ==> ipv4_or_empty(a4) == ipv4_text(a4),
        a6 == Ipv6Addr::zero() <==> ipv6_or_empty(a6).len() == 0,
        a6 != Ipv6Addr::zero() ==> ipv6_or_empty(a6) == ipv6_text(a6),
{
    lemma_ipv4_text_chars(a4);
    lemma_ipv6_text_chars(a6);
}

}
