//! Port mappings as the container engine lists them, and lists of ports for
//! display.
use crate::search::{contains, contains_text, find, find_from};
use crate::text::{
    chars_of, decimal_chars, decimal_text, extend_chars, rows, slice_of, split, split_fields,
    string_of, trim, trimmed,
};
use vstd::prelude::*;

verus! {

/// One port mapping of a container.
pub ghost struct Mapping {
    pub container: Seq<char>,
    pub network: Seq<char>,
    pub internal_port: Seq<char>,
    pub local_port: Seq<char>,
    pub protocol: Seq<char>,
}

/// One port mapping of a container. Container and network are filled in by
/// the caller.
#[derive(Debug)]
pub struct PortMapping {
    pub container: String,
    pub network: String,
    pub internal_port: String,
    pub local_port: String,
    pub protocol: String,
}

impl View for PortMapping {
    type V = Mapping;

    open spec fn view(&self) -> Mapping {
        Mapping {
            container: self.container@,
            network: self.network@,
            internal_port: self.internal_port@,
            local_port: self.local_port@,
            protocol: self.protocol@,
        }
    }
}

pub open spec fn mapping_views(v: Seq<PortMapping>) -> Seq<Mapping> {
    v.map_values(|m: PortMapping| m@)
}

pub open spec fn arrow() -> Seq<char> {
    "->"@
}

/// The mapping that one item of the list denotes.
///
/// `0.0.0.0:8080->80/tcp` maps local port 8080 to port 80 with protocol tcp;
/// the local port is what follows the last `:`, the protocol is tcp where
/// none is given. `80/tcp` is a port without a local port. Anything else,
/// an item with two arrows too, denotes nothing. The item names neither a
/// container nor a network: both are left empty.
pub open spec fn mapping_of(item: Seq<char>) -> Option<Mapping> {
    let part = trimmed(item);
    if contains_text(part, arrow()) {
        let at = find_from(part, arrow(), 0);
        let rest = part.subrange(at + 2, part.len() as int);
        if contains_text(rest, arrow()) {
            None
        } else {
            let local = split(trimmed(part.subrange(0, at)), ':');
            let internal = split(trimmed(rest), '/');
            Some(
                Mapping {
                    container: Seq::empty(),
                    network: Seq::empty(),
                    internal_port: internal[0],
                    local_port: local.last(),
                    protocol: if internal.len() >= 2 {
                        internal.last()
                    } else {
                        "tcp"@
                    },
                },
            )
        }
    } else {
        let fields = split(part, '/');
        if fields.len() >= 2 {
            Some(
                Mapping {
                    container: Seq::empty(),
                    network: Seq::empty(),
                    internal_port: fields[0],
                    local_port: "<none>"@,
                    protocol: fields[1],
                },
            )
        } else {
            None
        }
    }
}

/// The mappings that the first `n` items denote.
pub open spec fn mappings_in(items: Seq<Seq<char>>, n: int) -> Seq<Mapping>
    decreases n,
{
    if n <= 0 {
        Seq::empty()
    } else {
        match mapping_of(items[n - 1]) {
            Some(m) => mappings_in(items, n - 1).push(m),
            None => mappings_in(items, n - 1),
        }
    }
}

/// The mappings of a list such as `0.0.0.0:8080->80/tcp, 443/tcp`.
pub open spec fn port_mappings(list: Seq<char>) -> Seq<Mapping> {
    mappings_in(split(list, ','), split(list, ',').len() as int)
}

fn mapping(internal_port: &Vec<char>, local_port: &Vec<char>, protocol: &Vec<char>) -> (m:
    PortMapping)
    ensures
        m@ == (Mapping {
            container: Seq::empty(),
            network: Seq::empty(),
            internal_port: internal_port@,
            local_port: local_port@,
            protocol: protocol@,
        }),
{
    PortMapping {
        container: String::new(),
        network: String::new(),
        internal_port: string_of(internal_port),
        local_port: string_of(local_port),
        protocol: string_of(protocol),
    }
}

/// The mapping that one item of the list denotes.
pub fn parse_port_mapping(item: &Vec<char>) -> (r: Option<PortMapping>)
    ensures
        match r {
            Some(m) => mapping_of(item@) == Some(m@),
            None => mapping_of(item@) is None,
        },
{
    let part = trim(item);
    let arrow = chars_of("->");
    proof {
        reveal_strlit("->");
        crate::search::lemma_find_from(part@, arrow@, 0);
    }
    if contains(&part, &arrow) {
        let at = find(&part, &arrow, 0);
        let rest = slice_of(&part, at + 2, part.len());
        if contains(&rest, &arrow) {
            None
        } else {
            let local = split_fields(&trim(&slice_of(&part, 0, at)), ':');
            let internal = split_fields(&trim(&rest), '/');
            let last = internal.len() - 1;
            assert(rows(internal@)[0] == internal@[0]@);
            assert(rows(internal@).last() == internal@[last as int]@);
            assert(rows(local@).last() == local@[local@.len() - 1]@);
            let protocol = if internal.len() >= 2 {
                slice_of(&internal[last], 0, internal[last].len())
            } else {
                chars_of("tcp")
            };
            assert(internal.len() >= 2 ==> protocol@ =~= internal@[last as int]@);
            Some(mapping(&internal[0], &local[local.len() - 1], &protocol))
        }
    } else {
        let fields = split_fields(&part, '/');
        if fields.len() >= 2 {
            assert(rows(fields@)[0] == fields@[0]@);
            assert(rows(fields@)[1] == fields@[1]@);
            Some(mapping(&fields[0], &chars_of("<none>"), &fields[1]))
        } else {
            None
        }
    }
}

/// Parse port mappings from the container engine's list format, such as
/// `0.0.0.0:8080->80/tcp, 0.0.0.0:8443->443/tcp`.
pub fn parse_port_mappings(ports_str: &str) -> (mappings: Vec<PortMapping>)
    ensures
        mapping_views(mappings@) == port_mappings(ports_str@),
{
    let items = split_fields(&chars_of(ports_str), ',');
    let ghost all = rows(items@);
    let mut mappings: Vec<PortMapping> = Vec::new();
    let mut i: usize = 0;
    assert(mapping_views(mappings@) =~= Seq::<Mapping>::empty());
    while i < items.len()
        invariant
            i <= items.len(),
            all == rows(items@),
            mapping_views(mappings@) == mappings_in(all, i as int),
        decreases items.len() - i,
    {
        assert(all[i as int] == items@[i as int]@);
        match parse_port_mapping(&items[i]) {
            Some(m) => {
                assert(mapping_views(mappings@.push(m)) =~= mapping_views(mappings@).push(m@));
                mappings.push(m);
            },
            None => {},
        }
        i += 1;
    }
    mappings
}

/// The first `n` ports in decimal, separated by `, `.
pub open spec fn listed_ports(ports: Seq<u16>, n: int) -> Seq<char>
    decreases n,
{
    if n <= 0 {
        Seq::empty()
    } else if n == 1 {
        decimal_text(ports[0] as nat)
    } else {
        listed_ports(ports, n - 1) + ", "@ + decimal_text(ports[n - 1] as nat)
    }
}

/// A list of ports for display: `none` for no port; the ports separated by
/// `, `, cut after 60 characters and followed by `...` when it is longer.
pub open spec fn ports_text(ports: Seq<u16>) -> Seq<char> {
    if ports.len() == 0 {
        "none"@
    } else {
        let all = listed_ports(ports, ports.len() as int);
        if all.len() > 60 {
            all.subrange(0, 60) + "..."@
        } else {
            all
        }
    }
}

/// Format a list of ports for display
pub fn format_ports(ports: &Vec<u16>) -> (text: String)
    ensures
        text@ == ports_text(ports@),
{
    if ports.len() == 0 {
        return "none".to_owned();
    }
    let mut out: Vec<char> = Vec::new();
    let mut i: usize = 0;
    assert(out@ =~= listed_ports(ports@, 0));
    while i < ports.len()
        invariant
            i <= ports.len(),
            out@ == listed_ports(ports@, i as int),
        decreases ports.len() - i,
    {
        if i > 0 {
            extend_chars(&mut out, &chars_of(", "));
        }
        extend_chars(&mut out, &decimal_chars(ports[i] as u64));
        assert(out@ =~= listed_ports(ports@, i + 1));
        i += 1;
    }
    if out.len() > 60 {
        let mut cut = slice_of(&out, 0, 60);
        extend_chars(&mut cut, &chars_of("..."));
        string_of(&cut)
    } else {
        string_of(&out)
    }
}

} // verus!
