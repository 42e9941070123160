//! Where a peer can be reached.

use crate::text::{decimal, push_decimal};
use vstd::prelude::*;

verus! {

/// A network-layer address: its bits, and how it is written out.
#[derive(Debug, PartialEq, Eq)]
pub struct Ip {
    pub v6: bool,
    pub bits: u128,
    pub text: String,
}

/// A port on a machine. `flow` and `scope` are those of a version 6 address, and zero
/// otherwise.
#[derive(Debug, PartialEq, Eq)]
pub struct Address {
    pub ip: Ip,
    pub port: u16,
    pub flow: u32,
    pub scope: u32,
}

/// What an [`Ip`] says.
pub struct IpView {
    pub v6: bool,
    pub bits: u128,
    pub text: Seq<char>,
}

/// What an [`Address`] says.
pub struct AddressView {
    pub ip: IpView,
    pub port: u16,
    pub flow: u32,
    pub scope: u32,
}

impl View for Ip {
    type V = IpView;

    open spec fn view(&self) -> IpView {
        IpView { v6: self.v6, bits: self.bits, text: self.text@ }
    }
}

impl View for Address {
    type V = AddressView;

    open spec fn view(&self) -> AddressView {
        AddressView { ip: self.ip@, port: self.port, flow: self.flow, scope: self.scope }
    }
}

impl Clone for Ip {
    fn clone(&self) -> (r: Ip)
        ensures
            r@ == self@,
    {
        Ip { v6: self.v6, bits: self.bits, text: self.text.clone() }
    }
}

impl Clone for Address {
    fn clone(&self) -> (r: Address)
        ensures
            r@ == self@,
    {
        Address { ip: self.ip.clone(), port: self.port, flow: self.flow, scope: self.scope }
    }
}

impl IpView {
    /// A port on the machine with this address, with no flow and no scope.
    pub open spec fn port(self, port: u16) -> AddressView {
        AddressView { ip: self, port, flow: 0, scope: 0 }
    }
}

impl AddressView {
    /// Whether both lead to the same place. How they are written plays no part.
    pub open spec fn same(self, other: AddressView) -> bool {
        &&& self.ip.v6 == other.ip.v6
        &&& self.ip.bits == other.ip.bits
        &&& self.port == other.port
        &&& self.flow == other.flow
        &&& self.scope == other.scope
    }

    /// The address written out: `ip:port`, with a version 6 address in brackets and its
    /// scope, if it has one, behind a percent sign.
    pub open spec fn written(self) -> Seq<char> {
        if !self.ip.v6 {
            self.ip.text + ":"@ + decimal(self.port as nat)
        } else if self.scope == 0 {
            "["@ + self.ip.text + "]:"@ + decimal(self.port as nat)
        } else {
            "["@ + self.ip.text + "%"@ + decimal(self.scope as nat) + "]:"@ + decimal(
                self.port as nat,
            )
        }
    }
}

impl Address {
    pub fn new(ip: Ip, port: u16) -> (r: Address)
        ensures
            r@ == ip@.port(port),
    {
        Address { ip, port, flow: 0, scope: 0 }
    }

    /// Whether both lead to the same place.
    pub fn same(&self, other: &Address) -> (r: bool)
        ensures
            r == self@.same(other@),
    {
        self.ip.v6 == other.ip.v6 && self.ip.bits == other.ip.bits && self.port == other.port
            && self.flow == other.flow && self.scope == other.scope
    }

    /// The address written out.
    pub fn text(&self) -> (out: String)
        ensures
            out@ == self@.written(),
    {
        let mut out = String::new();
        if self.ip.v6 {
            out.append("[");
            assert(out@ =~= "["@);
        }
        out.append(self.ip.text.as_str());
        if self.ip.v6 {
            if self.scope != 0 {
                out.append("%");
                push_decimal(&mut out, self.scope as u64);
            }
            out.append("]");
            proof {
                reveal_strlit("]");
                reveal_strlit(":");
                reveal_strlit("]:");
                assert("]"@ + ":"@ =~= "]:"@);
            }
        }
        out.append(":");
        push_decimal(&mut out, self.port as u64);
        assert(out@ =~= self@.written());
        out
    }
}

/// Two addresses lead to one place unless they differ in the version or the bits of the
/// machine's address, in the port, the flow or the scope; how the machine's address is
/// written makes no difference.
pub proof fn law_when_two_addresses_are_one(a: AddressView, b: AddressView, text: Seq<char>)
    ensures
        a.same(AddressView { ip: IpView { text, ..a.ip }, ..a }),
        a.same(b) ==> a == (AddressView { ip: IpView { text: a.ip.text, ..b.ip }, ..b }),
        a.ip.v6 != b.ip.v6 || a.ip.bits != b.ip.bits || a.port != b.port || a.flow != b.flow
            || a.scope != b.scope ==> !a.same(b),
{
}

/// An address is written with its port behind a colon, and one of version 6 in brackets, with
/// its scope, if it has one, behind a percent sign.
pub proof fn law_how_an_address_is_written(a: AddressView)
    ensures
        ({
            let port = decimal(a.port as nat);
            let scope = decimal(a.scope as nat);
            &&& !a.ip.v6 ==> a.written() == a.ip.text + seq![':'] + port
            &&& a.ip.v6 && a.scope == 0 ==> a.written() == seq!['['] + a.ip.text + seq![']', ':']
                + port
            &&& a.ip.v6 && a.scope != 0 ==> a.written() == seq!['['] + a.ip.text + seq!['%'] + scope
                + seq![']', ':'] + port
        }),
{
    reveal_strlit(":");
    reveal_strlit("[");
    reveal_strlit("]:");
    reveal_strlit("%");
    let port = decimal(a.port as nat);
    let scope = decimal(a.scope as nat);
    if !a.ip.v6 {
        assert(a.written() =~= a.ip.text + seq![':'] + port);
    } else if a.scope == 0 {
        assert(a.written() =~= seq!['['] + a.ip.text + seq![']', ':'] + port);
    } else {
        assert(a.written() =~= seq!['['] + a.ip.text + seq!['%'] + scope + seq![']', ':'] + port);
    }
}

} // verus!
