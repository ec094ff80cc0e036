//! Addresses as operators write them: `host:port`, or `host` alone.
use vstd::prelude::*;

use crate::text::{chars_of, find_last, join3, last_position, port_value, read_port, text_of};

verus! {

/// An address whose port is no port number.
#[derive(Debug, Clone, PartialEq, Eq)]
pub struct BadPort {
    /// The address.
    pub input: String,
}

impl BadPort {
    pub fn message(&self) -> (s: String)
        ensures
            s@ == "bad port in \""@ + self.input@ + "\""@,
    {
        join3("bad port in \"", self.input.as_str(), "\"")
    }
}

/// The host and the port that an address names: what stands before and behind
/// the last colon, or all of it and the default port where there is no colon.
/// Nothing where what stands behind the colon is no port number.
pub open spec fn host_and_port(s: Seq<char>, default_port: u16) -> Option<(Seq<char>, u16)> {
    match last_position(s, ':') {
        Some(i) => match port_value(s.skip(i + 1)) {
            Some(p) => Some((s.take(i), p)),
            None => None,
        },
        None => Some((s, default_port)),
    }
}

/// Take an address apart.
pub fn parse_host_port(s: &str, default_port: u16) -> (r: Result<(String, u16), BadPort>)
    ensures
        match r {
            Ok((host, port)) => host_and_port(s@, default_port) == Some((host@, port)),
            Err(e) => host_and_port(s@, default_port) is None && e.input@ == s@,
        },
{
    let v = chars_of(s);
    let n: usize = v.len();
    match find_last(v.as_slice(), ':') {
        Some(i) => {
            let tail = vstd::slice::slice_subrange(v.as_slice(), i + 1, n);
            assert(tail@ =~= s@.skip(i + 1));
            match read_port(tail) {
                Some(port) => {
                    let head = vstd::slice::slice_subrange(v.as_slice(), 0, i);
                    assert(head@ =~= s@.take(i as int));
                    Ok((text_of(head), port))
                },
                None => Err(BadPort { input: s.to_owned() }),
            }
        },
        None => Ok((s.to_owned(), default_port)),
    }
}

proof fn lemma_last_position_behind(host: Seq<char>, tail: Seq<char>, c: char)
    requires
        !tail.contains(c),
    ensures
        last_position(host.push(c) + tail, c) == Some(host.len() as int),
    decreases tail.len(),
{
    let s = host.push(c) + tail;
    if tail.len() == 0 {
        assert(s =~= host.push(c));
    } else {
        assert(tail.contains(tail.last()));
        assert(s.last() == tail.last());
        assert(s.drop_last() =~= host.push(c) + tail.drop_last());
        assert(!tail.drop_last().contains(c)) by {
            if tail.drop_last().contains(c) {
                let i = choose|i: int| 0 <= i < tail.drop_last().len() && tail.drop_last()[i] == c;
                assert(tail[i] == c);
            }
        }
        lemma_last_position_behind(host, tail.drop_last(), c);
    }
}

/// An address that was put together from a host and a port comes apart into the
/// same host and port, whatever the host holds.
pub proof fn law_host_port_round_trip(host: Seq<char>, port: Seq<char>, default_port: u16)
    requires
        port_value(port) is Some,
    ensures
        host_and_port(host.push(':') + port, default_port) == Some((host, port_value(port)->0)),
{
    let s = host.push(':') + port;
    assert(!port.contains(':')) by {
        if port.contains(':') {
            let i = choose|i: int| 0 <= i < port.len() && port[i] == ':';
            let d = if port.len() > 0 && port[0] == '+' {
                port.skip(1)
            } else {
                port
            };
            if port[0] == '+' {
                assert(i > 0);
                assert(d[i - 1] == ':');
            } else {
                assert(d[i] == ':');
            }
        }
    }
    lemma_last_position_behind(host, port, ':');
    assert(s.skip(host.len() as int + 1) =~= port);
    assert(s.take(host.len() as int) =~= host);
}

/// An address without a colon is a host alone, and gets the default port.
pub proof fn law_host_alone(host: Seq<char>, default_port: u16)
    requires
        !host.contains(':'),
    ensures
        host_and_port(host, default_port) == Some((host, default_port)),
{
    lemma_no_last_position(host, ':');
}

proof fn lemma_no_last_position(s: Seq<char>, c: char)
    requires
        !s.contains(c),
    ensures
        last_position(s, c) is None,
    decreases s.len(),
{
    if s.len() > 0 {
        assert(s.contains(s.last()));
        assert forall|i: int| 0 <= i < s.drop_last().len() implies s.drop_last()[i] != c by {
            assert(s.contains(s[i]));
        }
        lemma_no_last_position(s.drop_last(), c);
    }
}

} // verus!
