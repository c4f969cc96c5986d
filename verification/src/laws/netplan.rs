//! Laws of the configuration.

use vstd::prelude::*;

use crate::netplan;

verus! {

/// Escaping goes character by character.
pub proof fn law_escaping_is_piecewise(a: Seq<char>, b: Seq<char>)
    ensures
        netplan::escaped(a + b) == netplan::escaped(a) + netplan::escaped(b),
    decreases b.len(),
{
    if b.len() == 0 {
        assert(a + b =~= a);
        assert(netplan::escaped(b) =~= Seq::<char>::empty());
        assert(netplan::escaped(a) + Seq::<char>::empty() =~= netplan::escaped(a));
    } else {
        law_escaping_is_piecewise(a, b.drop_last());
        assert((a + b).drop_last() =~= a + b.drop_last());
        assert(netplan::escaped(a + b) =~= netplan::escaped(a) + netplan::escaped(b));
    }
}

/// Only a backslash and a double quote are written with a backslash before
/// them; every other character is written as it is.
pub proof fn law_escaping_of_a_character(c: char)
    ensures
        c == '\\' || c == '"' ==> netplan::escaped(seq![c]) == seq!['\\', c],
        c != '\\' && c != '"' ==> netplan::escaped(seq![c]) == seq![c],
{
    assert(seq![c].drop_last() =~= Seq::<char>::empty());
    assert(netplan::escaped(seq![c].drop_last()) =~= Seq::<char>::empty());
    assert(netplan::escaped(seq![c]) =~= netplan::escaped_char(c));
}

/// The configuration is that of the interface it was asked for: it begins with
/// the settings of that interface, whatever the network and the password are.
/// The entry of the network follows. An open network has no settings, and any
/// other has its password.
pub proof fn law_netplan_text(iface: Seq<char>, ssid: Seq<char>, password: Seq<char>)
    ensures
        ({
            let yaml = netplan::netplan(iface, ssid, password);
            let settings = "network:\n  version: 2\n  renderer: networkd\n  wifis:\n    "@ + iface
                + ":\n      dhcp4: true\n      access-points:\n"@;
            &&& settings.is_prefix_of(yaml)
            &&& password.len() == 0 ==> yaml == settings + "        \""@ + netplan::escaped(ssid)
                + "\": {}\n"@
            &&& password.len() > 0 ==> yaml == settings + "        \""@ + netplan::escaped(ssid)
                + "\":\n          password: \""@ + netplan::escaped(password) + "\"\n"@
        }),
{
    let yaml = netplan::netplan(iface, ssid, password);
    let settings = "network:\n  version: 2\n  renderer: networkd\n  wifis:\n    "@ + iface
        + ":\n      dhcp4: true\n      access-points:\n"@;
    assert(settings =~= yaml.subrange(0, settings.len() as int));
    if password.len() == 0 {
        assert(yaml =~= settings + "        \""@ + netplan::escaped(ssid) + "\": {}\n"@);
    } else {
        assert(yaml =~= settings + "        \""@ + netplan::escaped(ssid)
            + "\":\n          password: \""@ + netplan::escaped(password) + "\"\n"@);
    }
}

/// Whatever was asked of them, two interfaces never get the same configuration.
pub proof fn law_netplan_tells_interfaces_apart(
    iface1: Seq<char>,
    ssid1: Seq<char>,
    password1: Seq<char>,
    iface2: Seq<char>,
    ssid2: Seq<char>,
    password2: Seq<char>,
)
    requires
        forall|i: int| 0 <= i < iface1.len() ==> #[trigger] iface1[i] != '\n',
        forall|i: int| 0 <= i < iface2.len() ==> #[trigger] iface2[i] != '\n',
        netplan::netplan(iface1, ssid1, password1) == netplan::netplan(iface2, ssid2, password2),
    ensures
        iface1 == iface2,
{
    let head = "network:\n  version: 2\n  renderer: networkd\n  wifis:\n    "@;
    let tail = ":\n      dhcp4: true\n      access-points:\n"@;
    let yaml = netplan::netplan(iface1, ssid1, password1);
    reveal_strlit(":\n      dhcp4: true\n      access-points:\n");
    law_netplan_text(iface1, ssid1, password1);
    law_netplan_text(iface2, ssid2, password2);
    let n = head.len() as int;
    let a = iface1.len() as int;
    let b = iface2.len() as int;
    let s1 = head + iface1 + tail;
    let s2 = head + iface2 + tail;
    assert forall|i: int| 0 <= i < s1.len() implies yaml[i] == s1[i] by {
        assert(yaml.subrange(0, s1.len() as int)[i] == s1[i]);
    }
    assert forall|i: int| 0 <= i < s2.len() implies yaml[i] == s2[i] by {
        assert(yaml.subrange(0, s2.len() as int)[i] == s2[i]);
    }
    assert(s1[n + a + 1] == '\n');
    assert(s2[n + b + 1] == '\n');
    if a < b {
        if a + 1 < b {
            assert(s2[n + a + 1] == iface2[a + 1]);
        } else {
            assert(s2[n + a + 1] == ':');
        }
    } else if b < a {
        if b + 1 < a {
            assert(s1[n + b + 1] == iface1[b + 1]);
        } else {
            assert(s1[n + b + 1] == ':');
        }
    }
    assert forall|i: int| 0 <= i < a implies iface1[i] == iface2[i] by {
        assert(s1[n + i] == iface1[i]);
        assert(s2[n + i] == iface2[i]);
    }
    assert(iface1 =~= iface2);
}

/// The interface and the files that the program works on.
pub proof fn law_fixed_names()
    ensures
        netplan::IFACE@ == "wlp1s0"@,
        netplan::NETPLAN_FILE@ == "/etc/netplan/00-installer-config.yaml"@,
        netplan::BACKUP_FILE@ == netplan::NETPLAN_FILE@ + ".oaifai.bak"@,
{
    reveal_strlit("/etc/netplan/00-installer-config.yaml");
    reveal_strlit(".oaifai.bak");
    reveal_strlit("/etc/netplan/00-installer-config.yaml.oaifai.bak");
    assert(netplan::BACKUP_FILE@ =~= netplan::NETPLAN_FILE@ + ".oaifai.bak"@);
}

} // verus!
