//! The `info` report: the firewall section and the lines of the local
//! services section.

use vstd::prelude::*;
use crate::domain::system::{group_services, groups_ok, longest_name, IpServiceGroup, SocketRecord};
use crate::text::{decimal, u64_to_string};

verus! {

/// On systems without a firewall front end that the tool knows, the
/// firewall section has nothing to report.
pub fn print_firewall_status() -> (r: Result<(), String>)
    ensures
        r is Ok,
{
    Ok(())
}

/// One line of the firewall section: a front end and whether it answered.
pub struct FirewallLine {
    pub name: String,
    pub active: bool,
}

/// The warning printed when no firewall front end answered.
pub open spec fn no_firewall_warning() -> Seq<char> {
    "No active firewall detected. Services may be exposed to public."@
}

/// The firewall section: a line for `ufw`, a line for `firewalld`, and a
/// warning when neither answered.
pub fn firewall_report(ufw_found: bool, firewalld_found: bool) -> (r: (Vec<FirewallLine>, Option<String>))
    ensures
        r.0@.len() == 2,
        r.0@[0].name@ == "ufw"@ && r.0@[0].active == ufw_found,
        r.0@[1].name@ == "firewalld"@ && r.0@[1].active == firewalld_found,
        (ufw_found || firewalld_found) ==> r.1 is None,
        !(ufw_found || firewalld_found) ==> (r.1 matches Some(w) && w@ == no_firewall_warning()),
{
    let mut lines: Vec<FirewallLine> = Vec::new();
    lines.push(FirewallLine { name: String::from_str("ufw"), active: ufw_found });
    lines.push(FirewallLine { name: String::from_str("firewalld"), active: firewalld_found });
    let warning = if !ufw_found && !firewalld_found {
        Some(String::from_str("No active firewall detected. Services may be exposed to public."))
    } else {
        None
    };
    (lines, warning)
}

/// The services listening on local addresses, grouped by address, with
/// the length of the longest process name.
pub fn build_socket_maps(sockets: &Vec<SocketRecord>) -> (r: Result<(Vec<IpServiceGroup>, usize), String>)
    ensures
        r matches Ok(v) && groups_ok(v.0@, sockets@) && v.1 as int == longest_name(sockets@),
{
    Ok(group_services(sockets))
}

/// The text that lists the ports of a service: the first five, separated
/// by commas, and an ellipsis when there are more.
pub open spec fn ports_text(ports: Seq<u16>) -> Seq<char>
    decreases ports.len(),
{
    if ports.len() == 0 {
        Seq::empty()
    } else if ports.len() == 1 {
        decimal(ports[0] as nat)
    } else if ports.len() > 5 {
        ports_text(ports.take(5)) + ", ..."@
    } else {
        ports_text(ports.drop_last()) + ", "@ + decimal(ports.last() as nat)
    }
}

/// Renders the ports of a service for the report.
pub fn format_ports(ports: &Vec<u16>) -> (r: String)
    ensures
        r@ == ports_text(ports@),
{
    let n = ports.len();
    let shown = if n > 5 {
        5
    } else {
        n
    };
    let mut s = String::new();
    let mut i: usize = 0;
    assert(ports_text(ports@.take(0)) =~= Seq::<char>::empty());
    while i < shown
        invariant
            n == ports@.len(),
            shown <= n,
            shown <= 5,
            shown == n || shown == 5,
            0 <= i <= shown,
            s@ == ports_text(ports@.take(i as int)),
        decreases shown - i,
    {
        let ghost before = s@;
        if i > 0 {
            s.append(", ");
        }
        let d = u64_to_string(ports[i] as u64);
        s.append(d.as_str());
        proof {
            let t = ports@.take(i + 1);
            assert(t.drop_last() =~= ports@.take(i as int));
            assert(t.last() == ports@[i as int]);
            if i == 0 {
                assert(s@ =~= decimal(ports@[0] as nat));
            } else {
                assert(s@ =~= before + ", "@ + decimal(ports@[i as int] as nat));
            }
        }
        i = i + 1;
    }
    if n > 5 {
        let ghost before = s@;
        s.append(", ...");
        assert(ports@.take(5).len() == 5);
        assert(s@ =~= ports_text(ports@));
    } else {
        assert(ports@.take(n as int) =~= ports@);
    }
    s
}

/// The number of dots between a service's name and its ports, so that the
/// ports line up at `key_width`.
pub fn dash_count(key_width: usize, name_len: usize) -> (r: usize)
    requires
        key_width >= name_len + 5,
    ensures
        r == key_width - name_len - 5,
{
    key_width - name_len - 5
}

/// The rule on each side of a section title: the title, framed as
/// "⟦ title ⟧", is centred in a line 60 characters wide, the left rule
/// taking the smaller half.
pub fn separator_widths(msg: &str) -> (r: (usize, usize))
    ensures
        ({
            let framed = msg@.len() + 4;
            let dashes = if framed < 60 { 60 - framed } else { 0 };
            r.0 == dashes / 2 && r.1 == dashes - dashes / 2
        }),
{
    let n = msg.unicode_len();
    let framed = if n <= 56 { n + 4 } else { 60 };
    let dashes: usize = 60 - framed;
    let left = dashes / 2;
    (left, dashes - left)
}

} // verus!
