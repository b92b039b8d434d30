//! What a component needs for itself alone.
use vstd::prelude::*;

use crate::text;
use crate::text::decimal;

verus! {

/// The address of a network interface.
#[derive(Debug, Clone, Copy, PartialEq, Eq, Structural)]
pub enum IpAddress {
    /// An address of four bytes.
    V4(u8, u8, u8, u8),
    /// An address of sixteen bytes, as one number.
    V6(u128),
}

/// How data is sent over the network.
#[derive(Debug, Clone, Copy, PartialEq, Eq, Structural)]
pub enum Protocol {
    /// As a stream.
    Tcp,
    /// As single packets.
    Udp,
}

/// What a component needs for itself alone.
#[derive(Debug)]
pub enum Resource {
    /// A port of a network interface.
    Port {
        /// The interface.
        ip: IpAddress,
        /// The number of the port.
        port: u16,
        /// The protocol that is spoken.
        protocol: Protocol,
        /// The interface and the port as they are written in messages.
        text: String,
    },
    /// A socket that the system hands over.
    SystemFdOffset(u32),
    /// An open file.
    Fd(u32),
    /// The place of a disk buffer, by the name of its sink.
    DiskBuffer(String),
}

/// What a [`Resource`] stands for.
pub ghost enum ResourceModel {
    Port(IpAddress, u16, Protocol),
    SystemFdOffset(u32),
    Fd(u32),
    DiskBuffer(Seq<char>),
}

impl View for Resource {
    type V = ResourceModel;

    open spec fn view(&self) -> ResourceModel {
        match *self {
            Resource::Port { ip, port, protocol, .. } => ResourceModel::Port(ip, port, protocol),
            Resource::SystemFdOffset(offset) => ResourceModel::SystemFdOffset(offset),
            Resource::Fd(fd) => ResourceModel::Fd(fd),
            Resource::DiskBuffer(name) => ResourceModel::DiskBuffer(name@),
        }
    }
}

/// Whether an address stands for all interfaces.
pub open spec fn unspecified(ip: IpAddress) -> bool {
    match ip {
        IpAddress::V4(a, b, c, d) => a == 0 && b == 0 && c == 0 && d == 0,
        IpAddress::V6(bits) => bits == 0,
    }
}

/// Whether who claims `claimed` also takes `resource`: it is the same, or a
/// port on all interfaces that takes in the port on any of them, be its address
/// long or short.
pub open spec fn takes(claimed: ResourceModel, resource: ResourceModel) -> bool {
    ||| claimed == resource
    ||| match (claimed, resource) {
        (ResourceModel::Port(a, p, s), ResourceModel::Port(_, q, t)) => unspecified(a) && p == q && s
            == t,
        _ => false,
    }
}

fn is_unspecified(ip: &IpAddress) -> (all: bool)
    ensures
        all == unspecified(*ip),
{
    match ip {
        IpAddress::V4(a, b, c, d) => *a == 0 && *b == 0 && *c == 0 && *d == 0,
        IpAddress::V6(bits) => *bits == 0,
    }
}

/// The text of a resource in messages.
pub open spec fn resource_text(resource: Resource) -> Seq<char> {
    match resource {
        Resource::Port { protocol, text, .. } => (match protocol {
            Protocol::Tcp => "tcp "@,
            Protocol::Udp => "udp "@,
        }) + text@,
        Resource::SystemFdOffset(offset) => "systemd "@ + decimal((offset + 1) as nat) + "th socket"@,
        Resource::Fd(fd) => "file descriptor: "@ + decimal(fd as nat),
        Resource::DiskBuffer(name) => "disk buffer "@ + debug_text(name@),
    }
}

/// A resource and its text in messages.
pub type ResourceInfo = (ResourceModel, Seq<char>);

/// The resources of a list, each with its text.
pub open spec fn described(resources: Seq<Resource>) -> Seq<ResourceInfo> {
    Seq::new(resources.len(), |i: int| (resources[i]@, resource_text(resources[i])))
}

/// A text in quotation marks, with what would not show escaped.
pub uninterp spec fn debug_text(text: Seq<char>) -> Seq<char>;

/// The `Debug` form of a `str`, by `format!`.
#[verifier::external_body]
pub(crate) fn debug_str(text: &str) -> (quoted: String)
    ensures
        quoted@ == debug_text(text@),
{
    format!("{:?}", text)
}

impl Clone for Resource {
    fn clone(&self) -> (copy: Self)
        ensures
            copy == *self,
    {
        match self {
            Resource::Port { ip, port, protocol, text } => Resource::Port {
                ip: *ip,
                port: *port,
                protocol: *protocol,
                text: text.clone(),
            },
            Resource::SystemFdOffset(offset) => Resource::SystemFdOffset(*offset),
            Resource::Fd(fd) => Resource::Fd(*fd),
            Resource::DiskBuffer(name) => Resource::DiskBuffer(name.clone()),
        }
    }
}

impl Resource {
    /// A port for streams, on the given interface.
    pub fn tcp(ip: IpAddress, port: u16, text: &str) -> (resource: Self)
        ensures
            resource@ == ResourceModel::Port(ip, port, Protocol::Tcp),
            resource_text(resource) == "tcp "@ + text@,
    {
        Resource::Port { ip, port, protocol: Protocol::Tcp, text: text.to_owned() }
    }

    /// A port for packets, on the given interface.
    pub fn udp(ip: IpAddress, port: u16, text: &str) -> (resource: Self)
        ensures
            resource@ == ResourceModel::Port(ip, port, Protocol::Udp),
            resource_text(resource) == "udp "@ + text@,
    {
        Resource::Port { ip, port, protocol: Protocol::Udp, text: text.to_owned() }
    }

    /// Whether two resources are the same.
    pub fn same(&self, other: &Resource) -> (same: bool)
        ensures
            same == (self@ == other@),
    {
        match (self, other) {
            (
                Resource::Port { ip: a, port: p, protocol: s, .. },
                Resource::Port { ip: b, port: q, protocol: t, .. },
            ) => *a == *b && *p == *q && *s == *t,
            (Resource::SystemFdOffset(a), Resource::SystemFdOffset(b)) => *a == *b,
            (Resource::Fd(a), Resource::Fd(b)) => *a == *b,
            (Resource::DiskBuffer(a), Resource::DiskBuffer(b)) => *a == *b,
            _ => false,
        }
    }

    /// Whether who claims this resource also takes `other`.
    pub fn also_takes(&self, other: &Resource) -> (takes_it: bool)
        ensures
            takes_it == takes(self@, other@),
    {
        if self.same(other) {
            return true;
        }
        match (self, other) {
            (
                Resource::Port { ip: a, port: p, protocol: s, .. },
                Resource::Port { port: q, protocol: t, .. },
            ) => is_unspecified(a) && *p == *q && *s == *t,
            _ => false,
        }
    }

    /// The text of the resource in messages.
    pub fn to_text(&self) -> (text: String)
        ensures
            text@ == resource_text(*self),
    {
        match self {
            Resource::Port { protocol, text, .. } => {
                let mut made = match protocol {
                    Protocol::Tcp => "tcp ".to_owned(),
                    Protocol::Udp => "udp ".to_owned(),
                };
                made.append(text.as_str());
                made
            },
            Resource::SystemFdOffset(offset) => {
                let mut made = "systemd ".to_owned();
                made.append(text::number(*offset as u128 + 1).as_str());
                made.append("th socket");
                made
            },
            Resource::Fd(fd) => {
                let mut made = "file descriptor: ".to_owned();
                made.append(text::number(*fd as u128).as_str());
                made
            },
            Resource::DiskBuffer(name) => {
                let mut made = "disk buffer ".to_owned();
                made.append(debug_str(name.as_str()).as_str());
                made
            },
        }
    }
}

/// Who has a port on all interfaces has it on each; else a resource takes only
/// itself.
pub proof fn ports_on_all_interfaces_take_all(a: &Resource, b: &Resource, takes_it: bool)
    requires
        call_ensures(Resource::also_takes, (a, b), takes_it),
    ensures
        match (*a, *b) {
            (
                Resource::Port { ip, port, protocol, .. },
                Resource::Port { ip: other, port: number, protocol: spoken, .. },
            ) => takes_it <==> port == number && protocol == spoken && (ip == other || ip
                == IpAddress::V4(0, 0, 0, 0) || ip == IpAddress::V6(0)),
            (Resource::SystemFdOffset(x), Resource::SystemFdOffset(y)) => takes_it <==> x == y,
            (Resource::Fd(x), Resource::Fd(y)) => takes_it <==> x == y,
            (Resource::DiskBuffer(x), Resource::DiskBuffer(y)) => takes_it <==> x@ == y@,
            _ => !takes_it,
        },
{
}

/// Resources are the same where they are of one kind and have the same place,
/// whatever their text.
pub proof fn resources_are_compared_by_place(a: &Resource, b: &Resource, same: bool)
    requires
        call_ensures(Resource::same, (a, b), same),
    ensures
        match (*a, *b) {
            (
                Resource::Port { ip, port, protocol, .. },
                Resource::Port { ip: other, port: number, protocol: spoken, .. },
            ) => same <==> ip == other && port == number && protocol == spoken,
            (Resource::SystemFdOffset(x), Resource::SystemFdOffset(y)) => same <==> x == y,
            (Resource::Fd(x), Resource::Fd(y)) => same <==> x == y,
            (Resource::DiskBuffer(x), Resource::DiskBuffer(y)) => same <==> x@ == y@,
            _ => !same,
        },
{
}

/// A resource is told of by its kind and its place.
pub proof fn resources_are_told_of_by_place(resource: &Resource, text: String)
    requires
        call_ensures(Resource::to_text, (resource,), text),
    ensures
        match *resource {
            Resource::Port { protocol: Protocol::Tcp, text: place, .. } => text@ == "tcp "@ + place@,
            Resource::Port { protocol: Protocol::Udp, text: place, .. } => text@ == "udp "@ + place@,
            Resource::SystemFdOffset(offset) => text@ == "systemd "@ + decimal((offset + 1) as nat)
                + "th socket"@,
            Resource::Fd(fd) => text@ == "file descriptor: "@ + decimal(fd as nat),
            Resource::DiskBuffer(name) => text@ == "disk buffer "@ + debug_text(name@),
        },
{
}

/// Ports are for streams or for packets, on the interface and with the number
/// that are given.
pub proof fn ports_are_as_given(ip: IpAddress, port: u16, text: &str, tcp: Resource, udp: Resource)
    requires
        call_ensures(Resource::tcp, (ip, port, text), tcp),
        call_ensures(Resource::udp, (ip, port, text), udp),
    ensures
        tcp is Port && tcp->ip == ip && tcp->port == port && tcp->protocol is Tcp,
        udp is Port && udp->ip == ip && udp->port == port && udp->protocol is Udp,
{
}

} // verus!
