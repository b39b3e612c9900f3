//! Discovery of QTM servers by UDP broadcast: the request a client
//! broadcasts, the response each server sends back, and the list of servers
//! found. The sockets are the caller's.

use vstd::prelude::*;
use vstd::slice::slice_subrange;
use vstd::string::*;
use vstd::utf8::*;

use crate::commands::same_text;
use crate::cursor::{spec_u16, spec_u32_bytes, ByteOrder};
use crate::error::{Error, Result};
use crate::packet::{packet_code, str_from_utf8, utf8_error_of, PacketType, PACKET_HEADER_SIZE};
use crate::text::{
    chars_of, decimal, is_ws, is_whitespace, lemma_trim_start_of_trimmed, nul_trimmed_end, push_char,
    push_decimal, push_str, string_from, trim, trim_bounds, trim_end_nuls, trim_start,
};

verus! {

/// The port QTM listens on for discovery broadcasts.
pub const DISCOVERY_PORT: u16 = 22226;

/// The shortest response: the header, one byte of information and the port.
pub const MIN_RESPONSE_LEN: usize = 11;

/// A QTM server that answered a discovery broadcast.
#[derive(Debug, Clone)]
pub struct Server {
    /// Address the response came from.
    pub address: String,
    pub hostname: String,
    pub qtm_version: String,
    pub camera_count: u32,
    /// QTM's base port. Add 1 for the little-endian RT port.
    pub base_port: u16,
}

/// Two servers are the same when every field is.
pub open spec fn same_server(a: Server, b: Server) -> bool {
    &&& a.address@ == b.address@
    &&& a.hostname@ == b.hostname@
    &&& a.qtm_version@ == b.qtm_version@
    &&& a.camera_count == b.camera_count
    &&& a.base_port == b.base_port
}

impl PartialEq for Server {
    fn eq(&self, other: &Self) -> (r: bool) {
        same_text(self.address.as_str(), other.address.as_str()) && same_text(
            self.hostname.as_str(),
            other.hostname.as_str(),
        ) && same_text(self.qtm_version.as_str(), other.qtm_version.as_str())
            && self.camera_count == other.camera_count && self.base_port == other.base_port
    }
}

impl vstd::std_specs::cmp::PartialEqSpecImpl for Server {
    open spec fn obeys_eq_spec() -> bool {
        true
    }

    open spec fn eq_spec(&self, other: &Self) -> bool {
        same_server(*self, *other)
    }
}

impl Eq for Server {

}

/// The pieces of `s` between occurrences of `sep`, as `str::split` gives
/// them: one more piece than there are separators.
pub open spec fn split_on(s: Seq<char>, sep: char) -> Seq<Seq<char>>
    decreases s.len(),
{
    if s.len() == 0 {
        seq![Seq::empty()]
    } else {
        let rest = split_on(s.drop_last(), sep);
        if s.last() == sep {
            rest.push(Seq::empty())
        } else {
            rest.update(rest.len() - 1, rest.last().push(s.last()))
        }
    }
}

/// The first whitespace-separated word of `s`; empty when `s` holds only
/// whitespace.
pub open spec fn first_word(s: Seq<char>) -> Seq<char> {
    let t = trim_start(s);
    t.take(word_end(t, 0))
}

/// Where the run of non-whitespace characters of `t` starting at `i` ends.
pub open spec fn word_end(t: Seq<char>, i: int) -> int
    decreases t.len() - i,
{
    if i < 0 || i >= t.len() || is_ws(t[i]) {
        if i < 0 {
            0
        } else if i > t.len() {
            t.len() as int
        } else {
            i
        }
    } else {
        word_end(t, i + 1)
    }
}

/// The value of a run of ASCII digits.
pub open spec fn digits_value(s: Seq<char>) -> int
    decreases s.len(),
{
    if s.len() == 0 {
        0
    } else {
        digits_value(s.drop_last()) * 10 + (s.last() as int - 48)
    }
}

/// True when every character of `s` is an ASCII digit.
pub open spec fn all_digits(s: Seq<char>) -> bool {
    forall|i: int| 0 <= i < s.len() ==> '0' <= #[trigger] s[i] <= '9'
}

/// What `str::parse::<u32>` gives for `s`: an optional `+` and at least one
/// ASCII digit whose value fits in a `u32`.
pub open spec fn u32_text_value(s: Seq<char>) -> Option<u32> {
    let d = if s.len() > 0 && s[0] == '+' {
        s.drop_first()
    } else {
        s
    };
    if d.len() > 0 && all_digits(d) && digits_value(d) <= u32::MAX {
        Some(digits_value(d) as u32)
    } else {
        None
    }
}

/// The information field of a response: the bytes between the header and
/// the port.
pub open spec fn info_bytes(data: Seq<u8>) -> Seq<u8> {
    data.subrange(PACKET_HEADER_SIZE as int, data.len() - 2)
}

/// The comma separated parts of the information text, each trimmed.
pub open spec fn info_parts(data: Seq<u8>) -> Seq<Seq<char>> {
    split_on(trim_end_nuls(decode_utf8(info_bytes(data))), ',').map_values(
        |p: Seq<char>| trim(p),
    )
}

/// A response is accepted when it is long enough, its information field is
/// UTF-8, and that field has exactly three comma separated parts.
pub open spec fn response_ok(data: Seq<u8>) -> bool {
    &&& data.len() >= MIN_RESPONSE_LEN
    &&& valid_utf8(info_bytes(data))
    &&& info_parts(data).len() == 3
}

/// The server an accepted response describes: host name and QTM version are
/// the first two parts, the camera count is the first word of the third part
/// when that is a number (zero otherwise), and the base port is the
/// big-endian `u16` in the last two bytes.
pub open spec fn server_of(address: Seq<char>, data: Seq<u8>, s: Server) -> bool {
    let parts = info_parts(data);
    &&& s.address@ == address
    &&& s.hostname@ == parts[0]
    &&& s.qtm_version@ == parts[1]
    &&& s.camera_count == match u32_text_value(first_word(parts[2])) {
        Some(n) => n,
        None => 0,
    }
    &&& s.base_port == spec_u16(ByteOrder::Big, data[data.len() - 2], data[data.len() - 1])
}

/// The text `Server::to_string` renders: host name, QTM version, address,
/// base port and camera count.
pub open spec fn server_text(s: Server) -> Seq<char> {
    s.hostname@ + " ("@ + s.qtm_version@ + ") at "@ + s.address@ + seq![':'] + decimal(
        s.base_port as nat,
    ) + " with "@ + decimal(s.camera_count as nat) + " cameras"@
}

/// Splits `v[0..end]` at every `sep`.
fn split_chars(v: &Vec<char>, end: usize, sep: char) -> (r: Vec<Vec<char>>)
    requires
        end <= v@.len(),
    ensures
        r@.len() == split_on(v@.take(end as int), sep).len(),
        forall|i: int| 0 <= i < r@.len() ==> (#[trigger] r@[i])@ == split_on(
            v@.take(end as int),
            sep,
        )[i],
{
    let mut done: Vec<Vec<char>> = Vec::new();
    let mut current: Vec<char> = Vec::new();
    let mut i: usize = 0;
    while i < end
        invariant
            i <= end <= v@.len(),
            done@.len() + 1 == split_on(v@.take(i as int), sep).len(),
            forall|k: int| 0 <= k < done@.len() ==> (#[trigger] done@[k])@ == split_on(
                v@.take(i as int),
                sep,
            )[k],
            current@ == split_on(v@.take(i as int), sep).last(),
        decreases end - i,
    {
        let ghost prefix = v@.take(i + 1);
        assert(prefix.drop_last() =~= v@.take(i as int));
        let c = v[i];
        if c == sep {
            done.push(current);
            current = Vec::new();
        } else {
            current.push(c);
        }
        i = i + 1;
    }
    let ghost parts = split_on(v@.take(end as int), sep);
    done.push(current);
    assert forall|k: int| 0 <= k < done@.len() implies (#[trigger] done@[k])@ == parts[k] by {}
    done
}

/// Parses a decimal `u32` as `str::parse::<u32>` does.
pub fn parse_u32(s: &Vec<char>) -> (r: Option<u32>)
    ensures
        r == u32_text_value(s@),
{
    let mut start: usize = 0;
    if s.len() > 0 && s[0] == '+' {
        start = 1;
    }
    let ghost d = s@.skip(start as int);
    assert(d =~= (if s@.len() > 0 && s@[0] == '+' {
        s@.drop_first()
    } else {
        s@
    }));
    if start == s.len() {
        return None;
    }
    let mut value: u64 = 0;
    let mut i = start;
    while i < s.len()
        invariant
            start <= i <= s@.len(),
            d == s@.skip(start as int),
            d == (if s@.len() > 0 && s@[0] == '+' {
                s@.drop_first()
            } else {
                s@
            }),
            value == digits_value(d.take(i - start)),
            value <= u32::MAX,
            all_digits(d.take(i - start)),
        decreases s@.len() - i,
    {
        let c = s[i];
        let ghost j = i - start;
        assert(d[j] == c);
        assert(d.take(j + 1).drop_last() =~= d.take(j));
        if !('0' <= c && c <= '9') {
            assert(!all_digits(d)) by {
                assert(!('0' <= d[j] <= '9'));
            }
            return None;
        }
        let digit = (c as u32 - 48) as u64;
        value = value * 10 + digit;
        assert(all_digits(d.take(j + 1))) by {
            assert forall|k: int| 0 <= k < j + 1 implies '0' <= #[trigger] d.take(j + 1)[k] <= '9' by {
                if k < j {
                    assert(d.take(j + 1)[k] == d.take(j)[k]);
                }
            }
        }
        if value > 0xFFFF_FFFF {
            proof {
                if all_digits(d) {
                    lemma_digits_value_prefix(d, j + 1);
                    assert(digits_value(d) > u32::MAX);
                }
            }
            return None;
        }
        i = i + 1;
    }
    assert(d.take(s@.len() - start) =~= d);
    Some(value as u32)
}

/// A run of digits has a value of at least zero.
proof fn lemma_digits_value_nonneg(s: Seq<char>)
    requires
        all_digits(s),
    ensures
        digits_value(s) >= 0,
    decreases s.len(),
{
    if s.len() > 0 {
        assert(all_digits(s.drop_last())) by {
            assert forall|k: int| 0 <= k < s.len() - 1 implies '0' <= #[trigger] s.drop_last()[k] <= '9' by {
                assert(s.drop_last()[k] == s[k]);
            }
        }
        lemma_digits_value_nonneg(s.drop_last());
        assert('0' <= s[s.len() - 1]);
    }
}

/// A run of digits is worth at least any of its prefixes.
proof fn lemma_digits_value_prefix(d: Seq<char>, n: int)
    requires
        0 <= n <= d.len(),
        all_digits(d),
    ensures
        digits_value(d) >= digits_value(d.take(n)),
    decreases d.len() - n,
{
    if n < d.len() {
        lemma_digits_value_prefix(d, n + 1);
        let t = d.take(n + 1);
        assert(t.drop_last() =~= d.take(n));
        assert(all_digits(d.take(n))) by {
            assert forall|k: int| 0 <= k < n implies '0' <= #[trigger] d.take(n)[k] <= '9' by {
                assert(d.take(n)[k] == d[k]);
            }
        }
        lemma_digits_value_nonneg(d.take(n));
        assert(t.last() == d[n]);
        assert('0' <= d[n]);
    } else {
        assert(d.take(n) =~= d);
    }
}

proof fn lemma_word_end(t: Seq<char>, i: int)
    requires
        0 <= i <= t.len(),
    ensures
        i <= word_end(t, i) <= t.len(),
    decreases t.len() - i,
{
    if i < t.len() && !is_ws(t[i]) {
        lemma_word_end(t, i + 1);
    }
}

/// The end of the first run of non-whitespace characters of `v` starting at
/// `i`.
fn word_end_from(v: &Vec<char>, i: usize, to: usize) -> (r: usize)
    requires
        i <= to <= v@.len(),
    ensures
        r as int == i + word_end(v@.subrange(i as int, to as int), 0),
{
    let ghost t = v@.subrange(i as int, to as int);
    let mut k = i;
    while k < to && !is_whitespace(v[k])
        invariant
            i <= k <= to <= v@.len(),
            t == v@.subrange(i as int, to as int),
            word_end(t, 0) == word_end(t, k - i),
        decreases to - k,
    {
        k = k + 1;
    }
    proof {
        lemma_word_end(t, 0);
    }
    k
}

impl Server {
    /// Parses a discovery response payload.
    ///
    /// The layout is an 8 byte packet header, a comma separated information
    /// string, and a big-endian `u16` base port as the final two bytes.
    pub fn parse(address: &str, data: &[u8]) -> (r: Result<Server>)
        ensures
            r is Ok <==> response_ok(data@),
            r matches Ok(s) ==> server_of(address@, data@, s),
            data@.len() < MIN_RESPONSE_LEN ==> (r matches Err(e) && e matches Error::MalformedFrame(m)
                && m@ == "discovery response is "@ + decimal(data@.len()) + " bytes, need at least 11"@),
            data@.len() >= MIN_RESPONSE_LEN && !valid_utf8(info_bytes(data@)) ==> (r matches Err(
                e,
            ) && e == Error::Utf8(utf8_error_of(info_bytes(data@)))),
            data@.len() >= MIN_RESPONSE_LEN && valid_utf8(info_bytes(data@)) && info_parts(
                data@,
            ).len() != 3 ==> (r matches Err(e) && e matches Error::MalformedFrame(m) && m@
                == "discovery information field has "@ + decimal(info_parts(data@).len())
                + " comma separated parts, expected 3"@),
    {
        if data.len() < MIN_RESPONSE_LEN {
            let mut m = String::new();
            push_str(&mut m, "discovery response is ");
            push_decimal(&mut m, data.len() as u64);
            push_str(&mut m, " bytes, need at least 11");
            assert(m@ =~= "discovery response is "@ + decimal(data@.len()) + " bytes, need at least 11"@);
            return Err(Error::MalformedFrame(m));
        }
        let info_end = data.len() - 2;
        let field = slice_subrange(data, PACKET_HEADER_SIZE, info_end);
        assert(field@ == info_bytes(data@));
        let text = match str_from_utf8(field) {
            Ok(t) => t,
            Err(e) => return Err(Error::Utf8(e)),
        };
        let chars = chars_of(text);
        let end = nul_trimmed_end(&chars);
        let pieces = split_chars(&chars, end, ',');
        let ghost parts = info_parts(data@);
        assert(pieces@.len() == parts.len());
        if pieces.len() != 3 {
            let mut m = String::new();
            push_str(&mut m, "discovery information field has ");
            push_decimal(&mut m, pieces.len() as u64);
            push_str(&mut m, " comma separated parts, expected 3");
            assert(m@ =~= "discovery information field has "@ + decimal(parts.len())
                + " comma separated parts, expected 3"@);
            return Err(Error::MalformedFrame(m));
        }
        let (a0, b0) = trim_bounds(&pieces[0], 0, pieces[0].len());
        let (a1, b1) = trim_bounds(&pieces[1], 0, pieces[1].len());
        let (a2, b2) = trim_bounds(&pieces[2], 0, pieces[2].len());
        proof {
            assert(pieces@[0]@.subrange(0, pieces@[0]@.len() as int) =~= pieces@[0]@);
            assert(pieces@[1]@.subrange(0, pieces@[1]@.len() as int) =~= pieces@[1]@);
            assert(pieces@[2]@.subrange(0, pieces@[2]@.len() as int) =~= pieces@[2]@);
        }
        let hostname = string_from(&pieces[0], a0, b0);
        let qtm_version = string_from(&pieces[1], a1, b1);
        let third = &pieces[2];
        let word_stop = word_end_from(third, a2, b2);
        let ghost t = third@.subrange(a2 as int, b2 as int);
        proof {
            assert(t == parts[2]);
            assert(trim_start(t) == t) by {
                if t.len() > 0 {
                    assert(t == trim(third@));
                    lemma_trim_start_of_trimmed(third@);
                }
            }
            lemma_word_end(t, 0);
            assert(third@.subrange(a2 as int, word_stop as int) =~= t.take(word_end(t, 0)));
        }
        let mut word: Vec<char> = Vec::new();
        let mut k = a2;
        while k < word_stop
            invariant
                a2 <= k <= word_stop <= b2 <= third@.len(),
                word@ == third@.subrange(a2 as int, k as int),
            decreases word_stop - k,
        {
            word.push(third[k]);
            assert(word@ =~= third@.subrange(a2 as int, k + 1));
            k = k + 1;
        }
        let camera_count = match parse_u32(&word) {
            Some(n) => n,
            None => 0,
        };
        let base_port = ByteOrder::Big.u16([data[info_end], data[info_end + 1]]);
        Ok(
            Server {
                address: address.to_string(),
                hostname,
                qtm_version,
                camera_count,
                base_port,
            },
        )
    }

    /// `hostname (version) at address:port with N cameras`.
    pub fn to_string(&self) -> (r: String)
        ensures
            r@ == server_text(*self),
    {
        let mut s = String::new();
        push_str(&mut s, self.hostname.as_str());
        push_str(&mut s, " (");
        push_str(&mut s, self.qtm_version.as_str());
        push_str(&mut s, ") at ");
        push_str(&mut s, self.address.as_str());
        push_char(&mut s, ':');
        push_decimal(&mut s, self.base_port as u64);
        push_str(&mut s, " with ");
        push_decimal(&mut s, self.camera_count as u64);
        push_str(&mut s, " cameras");
        assert(s@ =~= server_text(*self));
        s
    }
}

/// The discovery request: the packet header in little-endian byte order,
/// then the big-endian port QTM should reply to.
pub open spec fn discovery_request_bytes(reply_port: u16) -> Seq<u8> {
    spec_u32_bytes(ByteOrder::Little, 10) + spec_u32_bytes(
        ByteOrder::Little,
        packet_code(PacketType::Discover),
    ) + seq![(reply_port / 256) as u8, (reply_port % 256) as u8]
}

/// Builds the 10 byte discovery request: header plus the big-endian port QTM
/// should reply to.
pub fn discovery_request(reply_port: u16) -> (r: [u8; 10])
    ensures
        r@ == discovery_request_bytes(reply_port),
{
    let size = ByteOrder::Little.put_u32(10);
    let kind = ByteOrder::Little.put_u32(PacketType::Discover.as_u32());
    let r = [
        size[0],
        size[1],
        size[2],
        size[3],
        kind[0],
        kind[1],
        kind[2],
        kind[3],
        (reply_port / 256) as u8,
        (reply_port % 256) as u8,
    ];
    assert(r@ =~= discovery_request_bytes(reply_port));
    r
}

/// True when no two servers in `s` are the same.
pub open spec fn distinct_servers(s: Seq<Server>) -> bool {
    forall|i: int, j: int| 0 <= i < j < s.len() ==> !same_server(#[trigger] s[i], #[trigger] s[j])
}

/// Adds a server to those found so far unless the same server is already
/// there, so a server answering twice is listed once.
pub fn add_server(servers: &mut Vec<Server>, server: Server)
    ensures
        (exists|i: int| 0 <= i < old(servers)@.len() && same_server(#[trigger] old(servers)@[i], server))
            ==> final(servers)@ == old(servers)@,
        !(exists|i: int| 0 <= i < old(servers)@.len() && same_server(#[trigger] old(servers)@[i], server))
            ==> final(servers)@ == old(servers)@.push(server),
        distinct_servers(old(servers)@) ==> distinct_servers(final(servers)@),
{
    let mut i: usize = 0;
    while i < servers.len()
        invariant
            0 <= i <= servers@.len(),
            servers@ == old(servers)@,
            forall|k: int| 0 <= k < i ==> !same_server(#[trigger] servers@[k], server),
        decreases servers@.len() - i,
    {
        if servers[i] == server {
            return;
        }
        i = i + 1;
    }
    servers.push(server);
    proof {
        let s = final(servers)@;
        assert forall|a: int, b: int| distinct_servers(old(servers)@) && 0 <= a < b < s.len() implies !same_server(
            #[trigger] s[a],
            #[trigger] s[b],
        ) by {
            if b == s.len() - 1 {
                assert(s[b] == server);
                assert(s[a] == old(servers)@[a]);
                if same_server(s[a], s[b]) {
                    assert(!same_server(old(servers)@[a], server));
                }
            }
        }
    }
}

/// `after` is `before` with `server` added unless the same server is
/// already listed.
pub open spec fn listed_after(before: Seq<Server>, server: Server, after: Seq<Server>) -> bool {
    if exists|i: int| 0 <= i < before.len() && same_server(#[trigger] before[i], server) {
        after == before
    } else {
        after == before.push(server)
    }
}

/// One discovery response taken into the list of servers found: a response
/// that parses adds its server unless the same server is already listed, and
/// a malformed one leaves the list as it was.
pub open spec fn response_step(
    before: Seq<Server>,
    address: Seq<char>,
    data: Seq<u8>,
    after: Seq<Server>,
) -> bool {
    if response_ok(data) {
        exists|s: Server| #[trigger] server_of(address, data, s) && listed_after(before, s, after)
    } else {
        after == before
    }
}

/// True when `s` is the server of one of the well-formed `responses`.
pub open spec fn answered(responses: Seq<(Seq<char>, Seq<u8>)>, s: Server) -> bool {
    exists|i: int|
        0 <= i < responses.len() && response_ok(responses[i].1) && #[trigger] server_of(
            responses[i].0,
            responses[i].1,
            s,
        )
}

/// Discovery over a whole run of responses, taken one after another from an
/// empty list: the servers found are pairwise distinct and listed in the
/// order their first response arrived (each list along the way is a prefix
/// of the final one); every well-formed response is represented by a server
/// listed no later than its arrival; every server listed comes from some
/// well-formed response; and malformed responses change nothing.
pub proof fn lemma_discovery_run(responses: Seq<(Seq<char>, Seq<u8>)>, lists: Seq<Seq<Server>>)
    requires
        lists.len() == responses.len() + 1,
        lists[0].len() == 0,
        forall|i: int|
            0 <= i < responses.len() ==> #[trigger] response_step(
                lists[i],
                responses[i].0,
                responses[i].1,
                lists[i + 1],
            ),
    ensures
        distinct_servers(lists.last()),
        forall|i: int| 0 <= i < lists.len() ==> (#[trigger] lists[i]).is_prefix_of(lists.last()),
        forall|i: int|
            0 <= i < responses.len() && response_ok((#[trigger] responses[i]).1) ==> exists|j: int|
                0 <= j < lists[i + 1].len() && #[trigger] server_of(
                    responses[i].0,
                    responses[i].1,
                    lists.last()[j],
                ),
        forall|j: int|
            0 <= j < lists.last().len() ==> #[trigger] answered(responses, lists.last()[j]),
    decreases responses.len(),
{
    let n = responses.len() as int;
    let found = lists.last();
    if n == 0 {
        assert(found.len() == 0);
        assert(lists[0].is_prefix_of(found)) by {
            assert(found.subrange(0, 0) =~= lists[0]);
        }
        assert(distinct_servers(found));
    } else {
        let r2 = responses.drop_last();
        let l2 = lists.drop_last();
        assert forall|i: int| 0 <= i < r2.len() implies #[trigger] response_step(
            l2[i],
            r2[i].0,
            r2[i].1,
            l2[i + 1],
        ) by {
            assert(response_step(lists[i], responses[i].0, responses[i].1, lists[i + 1]));
        }
        lemma_discovery_run(r2, l2);
        let prev = lists[n - 1];
        assert(prev == l2.last());
        assert(found == lists[n]);
        assert(response_step(lists[n - 1], responses[n - 1].0, responses[n - 1].1, lists[n - 1 + 1]));
        lemma_response_step(prev, responses[n - 1].0, responses[n - 1].1, found);
        assert forall|i: int| 0 <= i < lists.len() implies (#[trigger] lists[i]).is_prefix_of(found) by {
            if i < n {
                assert(l2[i] == lists[i]);
                assert(l2[i].is_prefix_of(prev));
                lemma_prefix_trans(lists[i], prev, found);
            } else {
                assert(found.subrange(0, found.len() as int) =~= found);
            }
        }
        assert forall|i: int|
            0 <= i < responses.len() && response_ok((#[trigger] responses[i]).1) implies exists|j: int|
            0 <= j < lists[i + 1].len() && #[trigger] server_of(
                responses[i].0,
                responses[i].1,
                found[j],
            ) by {
            if i < n - 1 {
                assert(r2[i] == responses[i]);
                assert(l2[i + 1] == lists[i + 1]);
                let j = choose|j: int|
                    0 <= j < l2[i + 1].len() && #[trigger] server_of(r2[i].0, r2[i].1, l2.last()[j]);
                assert(found[j] == prev[j]);
            }
        }
        assert forall|j: int| 0 <= j < found.len() implies #[trigger] answered(responses, found[j]) by {
            if j < prev.len() {
                assert(answered(r2, l2.last()[j]));
                let i = choose|i: int|
                    0 <= i < r2.len() && response_ok(r2[i].1) && #[trigger] server_of(
                        r2[i].0,
                        r2[i].1,
                        l2.last()[j],
                    );
                assert(r2[i] == responses[i]);
                assert(found[j] == prev[j]);
                assert(server_of(responses[i].0, responses[i].1, found[j]));
            } else {
                assert(server_of(responses[n - 1].0, responses[n - 1].1, found[j]));
                assert(response_ok(responses[n - 1].1));
            }
        }
    }
}

/// A prefix of a prefix is a prefix.
proof fn lemma_prefix_trans(a: Seq<Server>, b: Seq<Server>, c: Seq<Server>)
    requires
        a.is_prefix_of(b),
        b.is_prefix_of(c),
    ensures
        a.is_prefix_of(c),
{
    assert(c.subrange(0, a.len() as int) =~= a) by {
        assert forall|k: int| 0 <= k < a.len() implies c[k] == a[k] by {
            assert(b.subrange(0, a.len() as int)[k] == b[k]);
            assert(c.subrange(0, b.len() as int)[k] == c[k]);
        }
    }
}

/// What one step of discovery does to the list: it keeps what was listed,
/// in order, keeps the list distinct, adds at most the server of a
/// well-formed response, and afterwards that response is represented.
proof fn lemma_response_step(before: Seq<Server>, address: Seq<char>, data: Seq<u8>, after: Seq<Server>)
    requires
        response_step(before, address, data, after),
        distinct_servers(before),
    ensures
        distinct_servers(after),
        before.is_prefix_of(after),
        response_ok(data) ==> exists|j: int| 0 <= j < after.len() && #[trigger] server_of(address, data, after[j]),
        forall|j: int| before.len() <= j < after.len() ==> response_ok(data) && #[trigger] server_of(address, data, after[j]),
{
    if response_ok(data) {
        let s = choose|s: Server| #[trigger] server_of(address, data, s) && listed_after(before, s, after);
        if exists|k: int| 0 <= k < before.len() && same_server(#[trigger] before[k], s) {
            let k = choose|k: int| 0 <= k < before.len() && same_server(#[trigger] before[k], s);
            assert(after == before);
            assert(server_of(address, data, after[k]));
        } else {
            assert(after == before.push(s));
            assert(after[before.len() as int] == s);
            assert forall|a: int, b: int| 0 <= a < b < after.len() implies !same_server(
                #[trigger] after[a],
                #[trigger] after[b],
            ) by {
                assert(after[a] == before[a]);
                if b < before.len() {
                    assert(after[b] == before[b]);
                }
            }
        }
    }
    assert(after.subrange(0, before.len() as int) =~= before);
}

/// Takes one discovery response from `address`: a response that parses adds
/// its server unless the same server is already listed, and a malformed
/// response leaves the list as it was, so one host cannot abort discovery of
/// the rest of the network. The parse error is handed back for the caller to
/// report.
pub fn take_response(servers: &mut Vec<Server>, address: &str, data: &[u8]) -> (r: Result<()>)
    ensures
        r is Ok <==> response_ok(data@),
        r is Ok ==> exists|s: Server|
            #[trigger] server_of(address@, data@, s) && listed_after(old(servers)@, s, final(servers)@),
        r is Err ==> final(servers)@ == old(servers)@,
        distinct_servers(old(servers)@) ==> distinct_servers(final(servers)@),
        response_step(old(servers)@, address@, data@, final(servers)@),
{
    match Server::parse(address, data) {
        Ok(server) => {
            let ghost parsed = server;
            add_server(servers, server);
            assert(server_of(address@, data@, parsed) && listed_after(old(servers)@, parsed, servers@));
            Ok(())
        },
        Err(e) => Err(e),
    }
}

/// A piece of text without a separator splits into itself.
proof fn lemma_split_without_separator(x: Seq<char>, sep: char)
    requires
        !x.contains(sep),
    ensures
        split_on(x, sep) == seq![x],
    decreases x.len(),
{
    if x.len() > 0 {
        assert(!x.drop_last().contains(sep)) by {
            if x.drop_last().contains(sep) {
                let k = choose|k: int| 0 <= k < x.drop_last().len() && x.drop_last()[k] == sep;
                assert(x[k] == sep);
            }
        }
        lemma_split_without_separator(x.drop_last(), sep);
        assert(x.last() != sep) by {
            assert(x[x.len() - 1] == x.last());
        }
        assert(x.drop_last().push(x.last()) =~= x);
        assert(split_on(x, sep) =~= seq![x]);
    } else {
        assert(x =~= Seq::<char>::empty());
        assert(split_on(x, sep) =~= seq![x]);
    }
}

/// Splitting always gives at least one piece.
proof fn lemma_split_nonempty(x: Seq<char>, sep: char)
    ensures
        split_on(x, sep).len() >= 1,
    decreases x.len(),
{
    if x.len() > 0 {
        lemma_split_nonempty(x.drop_last(), sep);
    }
}

/// Text joined at a separator splits into the pieces of each side.
proof fn lemma_split_join(x: Seq<char>, sep: char, y: Seq<char>)
    ensures
        split_on(x.push(sep) + y, sep) == split_on(x, sep) + split_on(y, sep),
    decreases y.len(),
{
    let t = x.push(sep) + y;
    if y.len() == 0 {
        assert(t =~= x.push(sep));
        assert(t.drop_last() =~= x);
        assert(split_on(y, sep) =~= seq![Seq::<char>::empty()]);
    } else {
        let y0 = y.drop_last();
        lemma_split_join(x, sep, y0);
        lemma_split_nonempty(y0, sep);
        lemma_split_nonempty(x, sep);
        assert(t.drop_last() =~= x.push(sep) + y0);
        assert(t.last() == y.last());
        let a = split_on(x, sep);
        let b = split_on(y0, sep);
        if y.last() == sep {
            assert(split_on(t, sep) =~= (a + b).push(Seq::empty()));
            assert(split_on(y, sep) =~= b.push(Seq::empty()));
        } else {
            let rest = a + b;
            assert(rest.last() == b.last());
            assert(split_on(t, sep) =~= a + b.update(b.len() - 1, b.last().push(y.last())));
        }
    }
}

/// The information text a server announces itself with: host name, QTM
/// version and camera count, separated by commas.
pub open spec fn announcement_text(hostname: Seq<char>, version: Seq<char>, cameras: Seq<char>) -> Seq<
    char,
> {
    hostname.push(',') + version.push(',') + cameras
}

/// A discovery response: a packet header, the information text and the
/// big-endian base port.
pub open spec fn response_bytes(header: Seq<u8>, text: Seq<char>, port: u16) -> Seq<u8> {
    header + encode_utf8(text) + seq![(port / 256) as u8, (port % 256) as u8]
}

/// Parsing gives back what a server announces: a response carrying a host
/// name, a QTM version and a camera count without commas, and a base port,
/// is accepted, and the server read from it has the trimmed host name and
/// version, the base port, and the number the camera text starts with (zero
/// when it starts with none).
pub proof fn lemma_parse_announcement(
    address: Seq<char>,
    header: Seq<u8>,
    hostname: Seq<char>,
    version: Seq<char>,
    cameras: Seq<char>,
    port: u16,
)
    requires
        header.len() == 8,
        !hostname.contains(','),
        !version.contains(','),
        !cameras.contains(','),
        !(cameras.len() > 0 && cameras.last() == '\0'),
    ensures
        ({
            let data = response_bytes(header, announcement_text(hostname, version, cameras), port);
            &&& response_ok(data)
            &&& forall|s: Server|
                #[trigger] server_of(address, data, s) ==> {
                    &&& s.hostname@ == trim(hostname)
                    &&& s.qtm_version@ == trim(version)
                    &&& s.base_port == port
                    &&& s.camera_count == match u32_text_value(first_word(trim(cameras))) {
                        Some(n) => n,
                        None => 0,
                    }
                }
        }),
{
    broadcast use encode_utf8_valid_utf8, encode_utf8_decode_utf8;

    let text = announcement_text(hostname, version, cameras);
    let bytes = encode_utf8(text);
    let data = response_bytes(header, text, port);
    assert(info_bytes(data) =~= bytes);
    assert(text.len() > 0 && text.last() != '\0') by {
        if cameras.len() > 0 {
            assert(text.last() == cameras.last());
        } else {
            assert(text.last() == ',');
        }
    }
    assert(trim_end_nuls(text) == text);
    assert(bytes.len() >= 1) by {
        assert(encode_utf8(text) == encode_scalar(text[0] as u32) + encode_utf8(text.drop_first()));
    }
    lemma_split_without_separator(cameras, ',');
    lemma_split_without_separator(version, ',');
    lemma_split_without_separator(hostname, ',');
    lemma_split_join(version, ',', cameras);
    lemma_split_join(hostname, ',', version.push(',') + cameras);
    assert(hostname.push(',') + (version.push(',') + cameras) =~= text);
    let pieces = split_on(text, ',');
    assert(pieces =~= seq![hostname, version, cameras]);
    let parts = info_parts(data);
    assert(parts.len() == 3);
    assert(parts[0] == trim(hostname));
    assert(parts[1] == trim(version));
    assert(parts[2] == trim(cameras));
    assert(data[data.len() - 2] == (port / 256) as u8);
    assert(data[data.len() - 1] == (port % 256) as u8);
}

} // verus!
