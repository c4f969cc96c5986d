//! The netplan configuration that connects to a network.

use vstd::prelude::*;

use crate::text;

verus! {

/// The interface that the program manages.
pub const IFACE: &'static str = "wlp1s0";

/// The configuration that netplan reads.
pub const NETPLAN_FILE: &'static str = "/etc/netplan/00-installer-config.yaml";

/// Where the former configuration is kept.
pub const BACKUP_FILE: &'static str = "/etc/netplan/00-installer-config.yaml.oaifai.bak";

/// A character of a double-quoted YAML scalar: a backslash or a quote is
/// written with a backslash before it.
pub open spec fn escaped_char(c: char) -> Seq<char> {
    if c == '\\' || c == '"' {
        seq!['\\', c]
    } else {
        seq![c]
    }
}

/// A text as it is written between the quotes of a double-quoted YAML scalar.
pub open spec fn escaped(s: Seq<char>) -> Seq<char>
    decreases s.len(),
{
    if s.len() == 0 {
        Seq::empty()
    } else {
        escaped(s.drop_last()) + escaped_char(s.last())
    }
}

/// A text as it is written between the quotes of a double-quoted YAML scalar.
pub fn yaml_escape(s: &str) -> (out: String)
    ensures
        out@ == escaped(s@),
{
    let chars = text::chars_of(s);
    let mut out = String::new();
    let mut i: usize = 0;
    while i < chars.len()
        invariant
            i <= chars@.len(),
            out@ == escaped(chars@.take(i as int)),
        decreases chars@.len() - i,
    {
        let c = chars[i];
        let ghost done = out@;
        if c == '\\' || c == '"' {
            out.push('\\');
        }
        out.push(c);
        assert(out@ =~= done + escaped_char(c));
        i += 1;
        assert(chars@.take(i as int).drop_last() =~= chars@.take(i - 1));
    }
    assert(chars@.take(i as int) =~= chars@);
    out
}

/// The entry of an access point: an open one has no password.
pub open spec fn access_point(ssid: Seq<char>, password: Seq<char>) -> Seq<char> {
    if password.len() == 0 {
        "        \""@ + escaped(ssid) + "\": {}\n"@
    } else {
        "        \""@ + escaped(ssid) + "\":\n          password: \""@ + escaped(password)
            + "\"\n"@
    }
}

/// What comes before the entry of the access point.
pub open spec fn preamble(iface: Seq<char>) -> Seq<char> {
    "network:\n  version: 2\n  renderer: networkd\n  wifis:\n    "@ + iface
        + ":\n      dhcp4: true\n      access-points:\n"@
}

/// The configuration that connects an interface to a network.
pub open spec fn netplan(iface: Seq<char>, ssid: Seq<char>, password: Seq<char>) -> Seq<char> {
    preamble(iface) + access_point(ssid, password)
}

/// The configuration that connects `iface` to the network `ssid`. With an
/// empty password the network is an open one.
pub fn generate_netplan(iface: &str, ssid: &str, password: &str) -> (yaml: String)
    ensures
        yaml@ == netplan(iface@, ssid@, password@),
{
    let name = yaml_escape(ssid);
    let ap = if password.is_empty() {
        text::join3("        \"", name.as_str(), "\": {}\n")
    } else {
        text::join3("        \"", name.as_str(), "\":\n          password: \"").concat(
            yaml_escape(password).as_str(),
        ).concat("\"\n")
    };
    text::join3(
        "network:\n  version: 2\n  renderer: networkd\n  wifis:\n    ",
        iface,
        ":\n      dhcp4: true\n      access-points:\n",
    ).concat(ap.as_str())
}

// ---------- laws ----------

/// Reads a double-quoted scalar from behind its opening quote: the text, and
/// what follows the closing quote. A backslash stands for the character after
/// it.
pub open spec fn read_quoted(s: Seq<char>) -> Option<(Seq<char>, Seq<char>)>
    decreases s.len(),
{
    if s.len() == 0 {
        None
    } else if s[0] == '"' {
        Some((Seq::empty(), s.skip(1)))
    } else if s[0] == '\\' {
        if s.len() == 1 {
            None
        } else {
            match read_quoted(s.skip(2)) {
                Some((t, rest)) => Some((seq![s[1]] + t, rest)),
                None => None,
            }
        }
    } else {
        match read_quoted(s.skip(1)) {
            Some((t, rest)) => Some((seq![s[0]] + t, rest)),
            None => None,
        }
    }
}

proof fn lemma_escaped_first(s: Seq<char>)
    requires
        s.len() > 0,
    ensures
        escaped(s) == escaped_char(s[0]) + escaped(s.drop_first()),
    decreases s.len(),
{
    if s.len() == 1 {
        assert(s.drop_last() =~= Seq::<char>::empty());
        assert(s.drop_first() =~= Seq::<char>::empty());
        assert(escaped(s.drop_last()) =~= Seq::<char>::empty());
        assert(escaped(s) =~= escaped_char(s[0]));
        assert(escaped_char(s[0]) + Seq::<char>::empty() =~= escaped_char(s[0]));
    } else {
        lemma_escaped_first(s.drop_last());
        assert(s.drop_last().drop_first() =~= s.drop_first().drop_last());
        assert(escaped_char(s[0]) + (escaped(s.drop_first().drop_last()) + escaped_char(s.last()))
            =~= (escaped_char(s[0]) + escaped(s.drop_first().drop_last())) + escaped_char(s.last()));
    }
}

/// What `yaml_escape` wrote between two quotes reads back as the same text,
/// and ends where it ends, whatever the text holds and whatever follows.
pub proof fn law_escaped_text_reads_back(s: Seq<char>, rest: Seq<char>)
    ensures
        read_quoted(escaped(s) + seq!['"'] + rest) == Some((s, rest)),
    decreases s.len(),
{
    let written = escaped(s) + seq!['"'] + rest;
    if s.len() == 0 {
        assert(written.skip(1) =~= rest);
        assert(s =~= Seq::<char>::empty());
    } else {
        let tail = s.drop_first();
        lemma_escaped_first(s);
        law_escaped_text_reads_back(tail, rest);
        let head = escaped_char(s[0]);
        assert(written =~= head + (escaped(tail) + seq!['"'] + rest));
        assert(written.skip(head.len() as int) =~= escaped(tail) + seq!['"'] + rest);
        assert(written[0] == head[0]);
        assert(seq![s[0]] + tail =~= s);
    }
}

/// The configuration names exactly the network and the password that were
/// asked for: both read back from it, and an open network has no password.
pub proof fn law_netplan_reads_back(iface: Seq<char>, ssid: Seq<char>, password: Seq<char>)
    ensures
        ({
            let yaml = netplan(iface, ssid, password);
            let opening = preamble(iface) + "        \""@;
            let entry = yaml.skip(opening.len() as int);
            &&& opening.is_prefix_of(yaml)
            &&& read_quoted(entry) is Some
            &&& read_quoted(entry).unwrap().0 == ssid
            &&& {
                let value = read_quoted(entry).unwrap().1;
                if password.len() == 0 {
                    value == ": {}\n"@
                } else {
                    let key = ":\n          password: \""@;
                    &&& key.is_prefix_of(value)
                    &&& read_quoted(value.skip(key.len() as int)) == Some((password, "\n"@))
                }
            }
        }),
{
    let yaml = netplan(iface, ssid, password);
    let opening = preamble(iface) + "        \""@;
    let entry = yaml.skip(opening.len() as int);
    reveal_strlit("\": {}\n");
    reveal_strlit(": {}\n");
    reveal_strlit("\":\n          password: \"");
    reveal_strlit(":\n          password: \"");
    reveal_strlit("\"\n");
    reveal_strlit("\n");
    if password.len() == 0 {
        assert("\": {}\n"@ =~= seq!['"'] + ": {}\n"@);
        assert(yaml =~= opening + (escaped(ssid) + seq!['"'] + ": {}\n"@));
        assert(entry =~= escaped(ssid) + seq!['"'] + ": {}\n"@);
        law_escaped_text_reads_back(ssid, ": {}\n"@);
    } else {
        let key = ":\n          password: \""@;
        let value = key + (escaped(password) + seq!['"'] + "\n"@);
        assert("\":\n          password: \""@ =~= seq!['"'] + key);
        assert("\"\n"@ =~= seq!['"'] + "\n"@);
        assert(yaml =~= opening + (escaped(ssid) + seq!['"'] + value));
        assert(entry =~= escaped(ssid) + seq!['"'] + value);
        law_escaped_text_reads_back(ssid, value);
        assert(value.skip(key.len() as int) =~= escaped(password) + seq!['"'] + "\n"@);
        law_escaped_text_reads_back(password, "\n"@);
    }
    assert(opening =~= yaml.subrange(0, opening.len() as int));
}

/// Two requests that lead to the same configuration are the same request.
pub proof fn law_netplan_is_injective(
    iface: Seq<char>,
    ssid1: Seq<char>,
    password1: Seq<char>,
    ssid2: Seq<char>,
    password2: Seq<char>,
)
    requires
        netplan(iface, ssid1, password1) == netplan(iface, ssid2, password2),
    ensures
        ssid1 == ssid2,
        password1 == password2,
{
    law_netplan_reads_back(iface, ssid1, password1);
    law_netplan_reads_back(iface, ssid2, password2);
    let opening = preamble(iface) + "        \""@;
    let value = read_quoted(netplan(iface, ssid1, password1).skip(opening.len() as int)).unwrap().1;
    reveal_strlit(": {}\n");
    reveal_strlit(":\n          password: \"");
    if password1.len() == 0 || password2.len() == 0 {
        assert(value[1] == ' ' || value[1] == '\n');
        if password1.len() > 0 || password2.len() > 0 {
            let key = ":\n          password: \""@;
            assert(value.subrange(0, key.len() as int)[1] == key[1]);
        }
        assert(password1 =~= password2);
    }
}

} // verus!
