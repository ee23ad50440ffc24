//! Joining a cluster: what an agent is told on its command line, what it says
//! of its node, and whether what it is assigned fits.
use crate::address::{format_ipv4, ipv4_text, is_ipv4_text, parse_ipv4, Ipv4};
use crate::json::{by_name, names_distinct, parse_text_map, parsed_map, text_entries};
use crate::text::{joined, opt_text, same_text, starts_with, trim, trimmed};
use crate::types::{
    NodeGpuDeviceRequest, NodeGpuRuntimeCapabilityRequest, NodeHeartbeatRequest,
    NodeVmmRuntimeCapabilityRequest, RegisterNodeRequest,
};
use vstd::prelude::*;

verus! {

// ---------------------------------------------------------------------------
// The command line
// ---------------------------------------------------------------------------

/// How much is logged.
#[derive(Clone, Copy, PartialEq, Eq, Structural, Debug)]
pub enum LogLevel {
    Trace,
    Debug,
    Info,
    Warn,
    Error,
}

/// The character, or the small letter where it is a capital of the Latin
/// alphabet.
pub open spec fn small(c: char) -> char {
    if 'A' <= c <= 'Z' {
        (c as int + 32) as char
    } else {
        c
    }
}

/// The text in small letters.
pub open spec fn in_small(text: Seq<char>) -> Seq<char> {
    text.map_values(|c: char| small(c))
}

/// The level that a word names, in whatever letters; `Info` where it names
/// none.
pub open spec fn level_named(word: Seq<char>) -> LogLevel {
    let name = in_small(word);
    if name == "trace"@ {
        LogLevel::Trace
    } else if name == "debug"@ {
        LogLevel::Debug
    } else if name == "warn"@ {
        LogLevel::Warn
    } else if name == "error"@ {
        LogLevel::Error
    } else {
        LogLevel::Info
    }
}

fn to_small(c: char) -> (s: char)
    ensures
        s == small(c),
{
    match c {
        'A' => 'a',
        'B' => 'b',
        'C' => 'c',
        'D' => 'd',
        'E' => 'e',
        'F' => 'f',
        'G' => 'g',
        'H' => 'h',
        'I' => 'i',
        'J' => 'j',
        'K' => 'k',
        'L' => 'l',
        'M' => 'm',
        'N' => 'n',
        'O' => 'o',
        'P' => 'p',
        'Q' => 'q',
        'R' => 'r',
        'S' => 's',
        'T' => 't',
        'U' => 'u',
        'V' => 'v',
        'W' => 'w',
        'X' => 'x',
        'Y' => 'y',
        'Z' => 'z',
        other => other,
    }
}

fn small_text(text: &str) -> (name: String)
    ensures
        name@ == in_small(text@),
{
    let mut name: String = String::new();
    for c in it: text.chars()
        invariant
            it.seq() == text@,
            name@ == in_small(text@).take(it.index()),
    {
        let ghost n = it.index();
        name.push(to_small(c));
        assert(in_small(text@).take(n + 1) =~= in_small(text@).take(n).push(in_small(text@)[n]));
    }
    assert(in_small(text@).take(text@.len() as int) =~= in_small(text@));
    name
}

/// The level that a word names, in whatever letters; `Info` where it names
/// none.
pub fn parse_log_level(level: &str) -> (parsed: LogLevel)
    ensures
        parsed == level_named(level@),
{
    let name: String = small_text(level);
    if same_text(name.as_str(), "trace") {
        LogLevel::Trace
    } else if same_text(name.as_str(), "debug") {
        LogLevel::Debug
    } else if same_text(name.as_str(), "warn") {
        LogLevel::Warn
    } else if same_text(name.as_str(), "error") {
        LogLevel::Error
    } else {
        LogLevel::Info
    }
}

/// The labels were left out, or hold nothing but white space.
pub open spec fn are_left_out(raw: Option<&str>) -> bool {
    raw matches Some(raw) ==> trimmed(raw@).len() == 0
}

/// The labels of a node, given as an object of texts. No two of them have one
/// name.
pub fn parse_labels(raw: Option<&str>) -> (labels: Result<Vec<(String, String)>, String>)
    ensures
        labels is Ok <==> are_left_out(raw) || parsed_map(raw->0@) is Some,
        labels matches Ok(labels) ==> names_distinct(labels@) && by_name(text_entries(labels@))
            == if are_left_out(raw) {
            Map::<Seq<char>, Seq<char>>::empty()
        } else {
            parsed_map(raw->0@)->0
        },
        labels matches Err(message) ==> message@ == "Invalid labels JSON: "@ + raw->0@,
{
    let text: &str = match raw {
        Some(text) => text,
        None => {
            let none: Vec<(String, String)> = Vec::new();
            assert(text_entries(none@) =~= Seq::empty());
            return Ok(none);
        },
    };
    let core: String = trim(text);
    if core.as_str().unicode_len() == 0 {
        let none: Vec<(String, String)> = Vec::new();
        assert(text_entries(none@) =~= Seq::empty());
        return Ok(none);
    }
    match parse_text_map(text) {
        Some(labels) => Ok(labels),
        None => Err(joined("Invalid labels JSON: ", text)),
    }
}

/// The text with `https://` wherever `http://` stood.
pub open spec fn with_https(text: Seq<char>) -> Seq<char>
    decreases text.len(),
{
    if text.len() == 0 {
        Seq::empty()
    } else if text.len() >= 7 && "http://"@.is_prefix_of(text) {
        "https://"@ + with_https(text.skip(7))
    } else {
        seq![text[0]] + with_https(text.skip(1))
    }
}

/// Where the local daemon is called: by an encrypted connection, where there
/// are certificates for it.
pub open spec fn endpoint_for(endpoint: Seq<char>, encrypted: bool) -> Seq<char> {
    if encrypted && !"https://"@.is_prefix_of(endpoint) {
        with_https(endpoint)
    } else {
        endpoint
    }
}

/// Where the local daemon is called.
pub fn daemon_endpoint(endpoint: &str, encrypted: bool) -> (called: String)
    ensures
        called@ == endpoint_for(endpoint@, encrypted),
{
    if !encrypted || starts_with(endpoint, "https://") {
        return endpoint.to_owned();
    }
    proof {
        reveal_strlit("http://");
    }
    let len: usize = endpoint.unicode_len();
    let mut called: String = String::new();
    let mut at: usize = 0;
    assert(endpoint@.skip(0) =~= endpoint@);
    while at < len
        invariant
            at <= len,
            len == endpoint@.len(),
            "http://"@.len() == 7,
            called@ + with_https(endpoint@.skip(at as int)) == with_https(endpoint@),
        decreases len - at,
    {
        let rest: &str = endpoint.substring_char(at, len);
        let ghost tail = endpoint@.skip(at as int);
        assert(rest@ =~= tail);
        let ghost before = called@;
        if starts_with(rest, "http://") {
            called.append("https://");
            assert(tail.skip(7) =~= endpoint@.skip(at + 7));
            assert(called@ + with_https(endpoint@.skip(at + 7)) =~= before + with_https(tail));
            at = at + 7;
        } else {
            called.push(rest.get_char(0));
            assert(tail.skip(1) =~= endpoint@.skip(at + 1));
            assert(called@ + with_https(endpoint@.skip(at + 1)) =~= before + with_https(tail));
            at = at + 1;
        }
    }
    assert(endpoint@.skip(at as int) =~= Seq::empty());
    assert(called@ =~= with_https(endpoint@));
    called
}

/// The address of the host, where the text is one.
pub fn host_address(text: &str) -> (host: Result<Ipv4, String>)
    ensures
        host is Ok <==> is_ipv4_text(text@),
        host matches Ok(ip) ==> ipv4_text(ip) == text@,
        host matches Err(message) ==> message@ == "Invalid host IP address"@,
{
    match parse_ipv4(text) {
        Some(ip) => Ok(ip),
        None => Err("Invalid host IP address".to_owned()),
    }
}

// ---------------------------------------------------------------------------
// Joining
// ---------------------------------------------------------------------------

/// What the local daemon says of the node's network.
pub struct LocalNetwork {
    pub pod_cidr: String,
    pub bridge_name: String,
    pub dns_port: u32,
}

/// The address that is given, or that of the host.
pub open spec fn address_or(given: Option<Seq<char>>, host: Ipv4) -> Option<Seq<char>> {
    match given {
        Some(given) => Some(given),
        None => Some(ipv4_text(host)),
    }
}

fn own_address(given: Option<String>, host: Ipv4) -> (address: Option<String>)
    ensures
        opt_text(address) == address_or(opt_text(given), host),
{
    match given {
        Some(given) => Some(given),
        None => Some(format_ipv4(host)),
    }
}

/// What a node says of itself when it joins: its addresses are the host's where
/// no others are given, and nothing is said of accelerators or virtual
/// machines.
pub fn registration(
    name: String,
    host_ip: Ipv4,
    public_ip: Option<String>,
    private_ip: Option<String>,
    agent_version: String,
    labels: Vec<(String, String)>,
    network: &LocalNetwork,
) -> (request: RegisterNodeRequest)
    ensures
        request.name@ == name@,
        opt_text(request.public_ip) == address_or(opt_text(public_ip), host_ip),
        opt_text(request.private_ip) == address_or(opt_text(private_ip), host_ip),
        opt_text(request.agent_version) == Some(agent_version@),
        request.labels@ == labels@,
        request.gpu_runtime.is_bare(),
        request.vmm_runtime.is_bare(),
        request.bridge_name@ == network.bridge_name@,
        request.dns_port == network.dns_port,
        request.egress_limit_mbit == 0,
        request.gpu_devices@.len() == 0,
{
    let devices: Vec<NodeGpuDeviceRequest> = Vec::new();
    RegisterNodeRequest {
        name,
        public_ip: own_address(public_ip, host_ip),
        private_ip: own_address(private_ip, host_ip),
        agent_version: Some(agent_version),
        labels,
        gpu_runtime: NodeGpuRuntimeCapabilityRequest::default(),
        vmm_runtime: NodeVmmRuntimeCapabilityRequest::default(),
        bridge_name: network.bridge_name.clone(),
        dns_port: network.dns_port as i64,
        egress_limit_mbit: 0,
        gpu_devices: devices,
    }
}

/// What a node says when it is ready.
pub fn ready_heartbeat() -> (request: NodeHeartbeatRequest)
    ensures
        request.state@ == "ready"@,
        request.gpu_runtime.is_bare(),
        request.vmm_runtime.is_bare(),
        request.gpu_devices@.len() == 0,
{
    let devices: Vec<NodeGpuDeviceRequest> = Vec::new();
    NodeHeartbeatRequest {
        state: "ready".to_owned(),
        gpu_runtime: NodeGpuRuntimeCapabilityRequest::default(),
        vmm_runtime: NodeVmmRuntimeCapabilityRequest::default(),
        gpu_devices: devices,
    }
}

/// Whether the addresses that the control plane assigns are those that the
/// local daemon gives out. Where they are not, the node must leave again, for
/// the reason that is given.
pub fn check_pod_cidr(local: &str, assigned: &str) -> (fits: Result<(), String>)
    ensures
        fits is Ok <==> local@ == assigned@,
        fits matches Err(message) ==> message@ == "local Quilt daemon PodCIDR "@ + local@
            + " does not match backend-assigned PodCIDR "@ + assigned@
            + "; start the node-local Quilt daemon with the assigned PodCIDR before joining the cluster"@,
{
    if same_text(local, assigned) {
        return Ok(());
    }
    let mut message: String = joined("local Quilt daemon PodCIDR ", local);
    message.append(" does not match backend-assigned PodCIDR ");
    message.append(assigned);
    message.append(
        "; start the node-local Quilt daemon with the assigned PodCIDR before joining the cluster",
    );
    Err(message)
}

/// An endpoint that is not encrypted is called encrypted where there are
/// certificates, at the same place, and one that is encrypted stays.
pub proof fn endpoint_is_encrypted(place: Seq<char>)
    requires
        with_https(place) == place,
    ensures
        endpoint_for("http://"@ + place, true) == "https://"@ + place,
        endpoint_for("https://"@ + place, true) == "https://"@ + place,
        endpoint_for("http://"@ + place, false) == "http://"@ + place,
{
    reveal_strlit("http://");
    reveal_strlit("https://");
    let plain = "http://"@ + place;
    assert(plain.skip(7) =~= place);
    assert("http://"@.is_prefix_of(plain));
    assert(plain[4] == ':');
    assert(!"https://"@.is_prefix_of(plain)) by {
        if "https://"@.is_prefix_of(plain) {
            assert("https://"@[4] == plain[4]);
        }
    }
    assert("https://"@.is_prefix_of("https://"@ + place));
}

/// The character is the letter, small or capital.
pub open spec fn is_letter(c: char, small_letter: char, capital: char) -> bool {
    c == small_letter || c == capital
}

/// A level is named by its word, in small letters, capitals or both; every
/// other word stands for `Info`.
pub proof fn levels_are_named_in_any_letters(word: Seq<char>)
    ensures
        level_named(word) == LogLevel::Trace <==> (word.len() == 5 && is_letter(word[0], 't', 'T')
            && is_letter(word[1], 'r', 'R') && is_letter(word[2], 'a', 'A') && is_letter(
            word[3],
            'c',
            'C',
        ) && is_letter(word[4], 'e', 'E')),
        level_named(word) == LogLevel::Debug <==> (word.len() == 5 && is_letter(word[0], 'd', 'D')
            && is_letter(word[1], 'e', 'E') && is_letter(word[2], 'b', 'B') && is_letter(
            word[3],
            'u',
            'U',
        ) && is_letter(word[4], 'g', 'G')),
        level_named(word) == LogLevel::Warn <==> (word.len() == 4 && is_letter(word[0], 'w', 'W')
            && is_letter(word[1], 'a', 'A') && is_letter(word[2], 'r', 'R') && is_letter(
            word[3],
            'n',
            'N',
        )),
        level_named(word) == LogLevel::Error <==> (word.len() == 5 && is_letter(word[0], 'e', 'E')
            && is_letter(word[1], 'r', 'R') && is_letter(word[2], 'r', 'R') && is_letter(
            word[3],
            'o',
            'O',
        ) && is_letter(word[4], 'r', 'R')),
{
    reveal_strlit("trace");
    reveal_strlit("debug");
    reveal_strlit("warn");
    reveal_strlit("error");
    let name = in_small(word);
    assert(name.len() == word.len());
    assert forall|i: int| 0 <= i < word.len() implies #[trigger] name[i] == small(word[i]) by {}
    let t = "trace"@;
    let d = "debug"@;
    let w = "warn"@;
    let e = "error"@;
    assert(t[0] == 't' && t[1] == 'r' && t[2] == 'a' && t[3] == 'c' && t[4] == 'e' && t.len() == 5);
    assert(d[0] == 'd' && d[1] == 'e' && d[2] == 'b' && d[3] == 'u' && d[4] == 'g' && d.len() == 5);
    assert(w[0] == 'w' && w[1] == 'a' && w[2] == 'r' && w[3] == 'n' && w.len() == 4);
    assert(e[0] == 'e' && e[1] == 'r' && e[2] == 'r' && e[3] == 'o' && e[4] == 'r' && e.len() == 5);
    lemma_spelled(word, t);
    lemma_spelled(word, d);
    lemma_spelled(word, w);
    lemma_spelled(word, e);
}

proof fn lemma_spelled(word: Seq<char>, name: Seq<char>)
    ensures
        in_small(word) == name <==> word.len() == name.len() && forall|i: int|
            0 <= i < name.len() ==> small(#[trigger] word[i]) == name[i],
{
    if word.len() == name.len() && forall|i: int|
        0 <= i < name.len() ==> small(#[trigger] word[i]) == name[i] {
        assert(in_small(word) =~= name);
    }
    if in_small(word) == name {
        assert forall|i: int| 0 <= i < name.len() implies small(#[trigger] word[i])
            == name[i] by {
            assert(in_small(word)[i] == small(word[i]));
        }
    }
}

/// A text in which `http://` stands nowhere is left as it is, and where it
/// stands first behind such a text, `https://` stands in its place and the rest
/// is treated alike.
pub proof fn only_plain_schemes_are_replaced(front: Seq<char>, rest: Seq<char>)
    requires
        forall|i: int|
            0 <= i < front.len() ==> !"http://"@.is_prefix_of(
                #[trigger] (front + "http://"@ + rest).skip(i),
            ),
    ensures
        with_https(front + "http://"@ + rest) == front + "https://"@ + with_https(rest),
    decreases front.len(),
{
    reveal_strlit("http://");
    let all = front + "http://"@ + rest;
    if front.len() == 0 {
        assert(all =~= "http://"@ + rest);
        assert(all.skip(7) =~= rest);
        assert("http://"@.is_prefix_of(all));
        assert(front + "https://"@ + with_https(rest) =~= "https://"@ + with_https(rest));
    } else {
        let less = front.skip(1);
        assert(all.skip(0) =~= all);
        assert(!"http://"@.is_prefix_of(all.skip(0)));
        assert(all.skip(1) =~= less + "http://"@ + rest);
        assert forall|i: int| 0 <= i < less.len() implies !"http://"@.is_prefix_of(
            #[trigger] (less + "http://"@ + rest).skip(i),
        ) by {
            assert(all.skip(1).skip(i) =~= all.skip(i + 1));
            assert(!"http://"@.is_prefix_of(all.skip(i + 1)));
        }
        only_plain_schemes_are_replaced(less, rest);
        assert(seq![all[0]] + (less + "https://"@ + with_https(rest)) =~= front + "https://"@
            + with_https(rest));
    }
}

/// A text in which `http://` stands nowhere is left as it is.
pub proof fn other_texts_are_left(text: Seq<char>)
    requires
        forall|i: int| 0 <= i < text.len() ==> !"http://"@.is_prefix_of(#[trigger] text.skip(i)),
    ensures
        with_https(text) == text,
    decreases text.len(),
{
    reveal_strlit("http://");
    if text.len() > 0 {
        let rest = text.skip(1);
        assert(text.skip(0) =~= text);
        assert(!"http://"@.is_prefix_of(text.skip(0)));
        assert forall|i: int| 0 <= i < rest.len() implies !"http://"@.is_prefix_of(
            #[trigger] rest.skip(i),
        ) by {
            assert(rest.skip(i) =~= text.skip(i + 1));
            assert(!"http://"@.is_prefix_of(text.skip(i + 1)));
        }
        other_texts_are_left(rest);
        assert(seq![text[0]] + rest =~= text);
    }
}

/// The local daemon is called as it is given, unless there are certificates and
/// it is not called encrypted yet.
pub proof fn endpoint_is_replaced_only_for_encryption(endpoint: Seq<char>)
    ensures
        endpoint_for(endpoint, false) == endpoint,
        "https://"@.is_prefix_of(endpoint) ==> endpoint_for(endpoint, true) == endpoint,
        !"https://"@.is_prefix_of(endpoint) ==> endpoint_for(endpoint, true) == with_https(
            endpoint,
        ),
{
}

/// A node's address is the one that is given, and the host's where none is.
pub proof fn given_address_counts(given: Seq<char>, host: Ipv4)
    ensures
        address_or(Some(given), host) == Some(given),
        address_or(None, host) == Some(ipv4_text(host)),
{
}

} // verus!
