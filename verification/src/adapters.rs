//! The outward-facing services of the tool: the vendor database, the local
//! system, and the network scanner.

use vstd::prelude::*;
use crate::addr::MacAddr;
use crate::domain::system::{
    firewall_status, group_services, groups_ok, FirewallStatus, IpServiceGroup, SocketRecord,
};

verus! {

/// The OUI database of the `mac_oui` crate.
#[verifier::external_type_specification]
#[verifier::external_body]
pub struct ExOui(mac_oui::Oui);

/// The company that `mac_oui`'s bundled database lists for a MAC address
/// written as text, if any.
pub uninterp spec fn oui_company(mac_text: Seq<char>) -> Option<Seq<char>>;

/// `mac_oui::Oui::default`: loads the database bundled with the crate.
///
/// Nothing is stated of the outcome: loading parses the bundled CSV text,
/// and the source does not show that it cannot fail.
#[verifier::external_body]
fn load_oui() -> (r: Result<mac_oui::Oui, String>) {
    mac_oui::Oui::default()
}

/// `mac_oui::Oui::lookup_by_mac` on a database built by `load_oui`: the
/// company name of the entry found, if any; a failed lookup counts as none.
///
/// The contract claims that the answer depends on the address text alone,
/// which holds because every database here is the bundled one.
#[verifier::external_body]
fn lookup_company(db: &mac_oui::Oui, mac_text: &str) -> (r: Option<String>)
    ensures
        match r {
            Some(c) => oui_company(mac_text@) == Some(c@),
            None => oui_company(mac_text@) is None,
        },
{
    match db.lookup_by_mac(mac_text) {
        Ok(Some(entry)) => Some(entry.company_name.clone()),
        _ => None,
    }
}

/// The lower-case hexadecimal digit of `d`.
pub open spec fn hex_digit(d: int) -> char {
    if d < 10 {
        (48 + d) as char
    } else {
        (87 + d) as char
    }
}

/// A byte as two lower-case hexadecimal digits.
pub open spec fn hex_byte(b: u8) -> Seq<char> {
    seq![hex_digit(b as int / 16), hex_digit(b as int % 16)]
}

/// A MAC address written as six pairs of lower-case hexadecimal digits
/// separated by colons.
pub open spec fn mac_text(m: MacAddr) -> Seq<char> {
    hex_byte(m.0) + ":"@ + hex_byte(m.1) + ":"@ + hex_byte(m.2) + ":"@ + hex_byte(m.3) + ":"@
        + hex_byte(m.4) + ":"@ + hex_byte(m.5)
}

fn hex_str(d: u8) -> (r: &'static str)
    requires
        d < 16,
    ensures
        r@ == seq![hex_digit(d as int)],
{
    if d == 0 {
        proof {
            reveal_strlit("0");
        }
        "0"
    } else if d == 1 {
        proof {
            reveal_strlit("1");
        }
        "1"
    } else if d == 2 {
        proof {
            reveal_strlit("2");
        }
        "2"
    } else if d == 3 {
        proof {
            reveal_strlit("3");
        }
        "3"
    } else if d == 4 {
        proof {
            reveal_strlit("4");
        }
        "4"
    } else if d == 5 {
        proof {
            reveal_strlit("5");
        }
        "5"
    } else if d == 6 {
        proof {
            reveal_strlit("6");
        }
        "6"
    } else if d == 7 {
        proof {
            reveal_strlit("7");
        }
        "7"
    } else if d == 8 {
        proof {
            reveal_strlit("8");
        }
        "8"
    } else if d == 9 {
        proof {
            reveal_strlit("9");
        }
        "9"
    } else if d == 10 {
        proof {
            reveal_strlit("a");
        }
        "a"
    } else if d == 11 {
        proof {
            reveal_strlit("b");
        }
        "b"
    } else if d == 12 {
        proof {
            reveal_strlit("c");
        }
        "c"
    } else if d == 13 {
        proof {
            reveal_strlit("d");
        }
        "d"
    } else if d == 14 {
        proof {
            reveal_strlit("e");
        }
        "e"
    } else {
        proof {
            reveal_strlit("f");
        }
        "f"
    }
}

fn push_hex_byte(s: &mut String, b: u8)
    ensures
        final(s)@ == old(s)@ + hex_byte(b),
{
    let ghost before = s@;
    s.append(hex_str(b / 16));
    s.append(hex_str(b % 16));
    assert(s@ =~= before + hex_byte(b));
}

/// The text form of a MAC address.
pub fn format_mac(m: MacAddr) -> (r: String)
    ensures
        r@ == mac_text(m),
{
    let mut s = String::new();
    push_hex_byte(&mut s, m.0);
    s.append(":");
    push_hex_byte(&mut s, m.1);
    s.append(":");
    push_hex_byte(&mut s, m.2);
    s.append(":");
    push_hex_byte(&mut s, m.3);
    s.append(":");
    push_hex_byte(&mut s, m.4);
    s.append(":");
    push_hex_byte(&mut s, m.5);
    proof {
        reveal_strlit(":");
    }
    assert(s@ =~= mac_text(m));
    s
}

/// The vendor database, loaded once.
pub struct MacOuiRepo {
    db: mac_oui::Oui,
}

impl MacOuiRepo {
    /// Loads the bundled database.
    pub fn new() -> (r: Result<MacOuiRepo, String>) {
        match load_oui() {
            Ok(db) => Ok(MacOuiRepo { db }),
            Err(e) => Err(e),
        }
    }

    /// The vendor of a MAC address, when the database knows it.
    pub fn get_vendor(&self, mac_addr: MacAddr) -> (r: Option<String>)
        ensures
            match r {
                Some(c) => oui_company(mac_text(mac_addr)) == Some(c@),
                None => oui_company(mac_text(mac_addr)) is None,
            },
    {
        let text = format_mac(mac_addr);
        lookup_company(&self.db, text.as_str())
    }
}

/// The local system: its listening services and its firewall.
pub struct SystemRepo;

impl SystemRepo {
    /// The services listening on local addresses, from the sockets the
    /// system reported.
    pub fn get_local_services(&self, sockets: &Vec<SocketRecord>) -> (r: Result<Vec<IpServiceGroup>, String>)
        ensures
            r matches Ok(groups) && groups_ok(groups@, sockets@),
    {
        let (groups, _) = group_services(sockets);
        Ok(groups)
    }

    /// The firewall status, from whether `ufw` and `firewall-cmd` could be
    /// run.
    pub fn get_firewall_status(&self, ufw_found: bool, firewalld_found: bool) -> (r: Result<FirewallStatus, String>)
        ensures
            r == Ok::<FirewallStatus, String>(if ufw_found || firewalld_found {
                FirewallStatus::Active
            } else {
                FirewallStatus::NotDetected
            }),
    {
        Ok(firewall_status(ufw_found, firewalld_found))
    }
}

/// The network scanner.
pub struct NetworkScannerAdapter;

} // verus!
