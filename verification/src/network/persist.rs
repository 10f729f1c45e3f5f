//! What of a card is kept on disk, and where.
use crate::text::chars_of;
use crate::{Ipv4Info, Ipv6Info};
use vstd::prelude::*;
use vstd::string::*;

verus! {

/// The directory that holds the configuration files.
pub const PERSIST_DIR: &'static str = "/root";

/// All of a card that is kept on disk.
#[derive(Clone, Copy, Debug, PartialEq, Eq)]
pub struct NetCardStore {
    /// Whether the card is switched on.
    pub link_up: bool,
    pub ipv4: Ipv4Info,
    pub ipv6: Ipv6Info,
}

impl NetCardStore {
    pub fn new(link_up: bool, ipv4: &Ipv4Info, ipv6: &Ipv6Info) -> (r: Self)
        ensures
            r == (NetCardStore { link_up, ipv4: *ipv4, ipv6: *ipv6 }),
    {
        Self { link_up, ipv4: *ipv4, ipv6: *ipv6 }
    }

    pub fn link_up(&self) -> (r: bool)
        ensures
            r == self.link_up,
    {
        self.link_up
    }

    pub fn ipv4(&self) -> (r: Ipv4Info)
        ensures
            r == self.ipv4,
    {
        self.ipv4
    }

    pub fn ipv6(&self) -> (r: Ipv6Info)
        ensures
            r == self.ipv6,
    {
        self.ipv6
    }
}

impl Default for NetCardStore {
    fn default() -> (r: Self)
        ensures
            r == (NetCardStore {
                link_up: false,
                ipv4: Ipv4Info::initial(),
                ipv6: Ipv6Info::initial(),
            }),
    {
        NetCardStore { link_up: false, ipv4: Ipv4Info::default(), ipv6: Ipv6Info::default() }
    }
}

/// The path of the configuration file of an interface: `/root/<iface_name>.json`. A
/// name that is itself an absolute path is not taken below the directory.
pub open spec fn config_path_of(iface: Seq<char>) -> Seq<char> {
    if iface.len() > 0 && iface[0] == '/' {
        iface + ".json"@
    } else {
        "/root"@ + "/"@ + iface + ".json"@
    }
}

/// Whether the file name that an interface leads to is the bare extension, which names
/// a file without one.
pub open spec fn is_bare(iface: Seq<char>) -> bool {
    iface.len() == 0 || iface.last() == '/'
}

/// The path of the file that a configuration is first written to: the same with its
/// extension replaced by `json.tmp`.
pub open spec fn temp_path_of(iface: Seq<char>) -> Seq<char> {
    config_path_of(iface) + if is_bare(iface) {
        ".json.tmp"@
    } else {
        ".tmp"@
    }
}

/// The path of the configuration file of an interface.
pub fn config_path(iface_name: &str) -> (r: String)
    ensures
        r@ == config_path_of(iface_name@),
{
    let v = chars_of(iface_name);
    let mut out = String::new();
    if !(v.len() > 0 && v[0] == '/') {
        out.append(PERSIST_DIR);
        out.append("/");
    }
    out.append(iface_name);
    out.append(".json");
    proof {
        assert(out@ =~= config_path_of(iface_name@));
    }
    out
}

/// The path of the file that a configuration is first written to, before it takes the
/// place of the old one.
pub fn temp_path(iface_name: &str) -> (r: String)
    ensures
        r@ == temp_path_of(iface_name@),
{
    let v = chars_of(iface_name);
    let mut out = config_path(iface_name);
    if v.len() == 0 || v[v.len() - 1] == '/' {
        out.append(".json.tmp");
    } else {
        out.append(".tmp");
    }
    out
}

/// Different interfaces have different configuration files, unless the name of the one
/// is itself the path that the other leads to.
pub proof fn law_config_paths_differ(a: Seq<char>, b: Seq<char>)
    requires
        a != b,
        a != "/root"@ + "/"@ + b,
        b != "/root"@ + "/"@ + a,
    ensures
        config_path_of(a) != config_path_of(b),
{
    reveal_strlit(".json");
    let pa = config_path_of(a);
    let pb = config_path_of(b);
    let ra = if a.len() > 0 && a[0] == '/' {
        a
    } else {
        "/root"@ + "/"@ + a
    };
    let rb = if b.len() > 0 && b[0] == '/' {
        b
    } else {
        "/root"@ + "/"@ + b
    };
    assert(pa == ra + ".json"@ && pb == rb + ".json"@);
    if pa == pb {
        assert(pa.take(pa.len() - 5) =~= ra);
        assert(pb.take(pb.len() - 5) =~= rb);
        let root = "/root"@ + "/"@;
        if ra != a && rb != b {
            assert(ra.skip(root.len() as int) =~= a);
            assert(rb.skip(root.len() as int) =~= b);
        }
    }
}

/// A file that is first written to is no configuration file, of any interface.
pub proof fn law_temp_path_apart(a: Seq<char>, b: Seq<char>)
    ensures
        temp_path_of(a) != config_path_of(b),
{
    reveal_strlit(".json");
    reveal_strlit(".tmp");
    reveal_strlit(".json.tmp");
    assert(temp_path_of(a).last() == 'p');
    assert(config_path_of(b).last() == 'n');
}

}
