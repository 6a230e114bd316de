//! The client side of Binary Ninja MCP servers: configuration, server and
//! function records, and the decisions taken on the servers' replies.
//!
//! Each loaded binary is served on a port of its own; a server is known by
//! the id `port_<n>`.  The HTTP exchanges themselves happen outside this
//! module: what is computed before a request (its URL) and after a reply
//! (the records built from it) is here.
use vstd::prelude::*;
use std::time::Duration;
use crate::text::{
    is_prefix, decimal, parsed_u16, lines, string_views, parse_u16, str_starts_with,
    usize_to_decimal, split_lines, string_of, after_last, split_last_piece, is_digit,
};
use crate::paths::opt_chars;

verus! {

// ---------------------------------------------------------------------------
// Errors
// ---------------------------------------------------------------------------

/// Errors that can occur when communicating with Binary Ninja MCP servers.
#[derive(Debug, Clone, PartialEq)]
pub enum BinaryNinjaError {
    NoServersAvailable,
    ServerNotFound(String),
    RequestFailed(String),
    ParseError(String),
    BinaryNinjaError(String),
    FunctionNotFound(String),
    Timeout,
}

/// The message that describes an error.
pub open spec fn error_message(e: BinaryNinjaError) -> Seq<char> {
    match e {
        BinaryNinjaError::NoServersAvailable => "No Binary Ninja servers found"@,
        BinaryNinjaError::ServerNotFound(s) => "Binary server '"@ + s@ + "' not found"@,
        BinaryNinjaError::RequestFailed(s) => "HTTP request failed: "@ + s@,
        BinaryNinjaError::ParseError(s) => "Failed to parse response: "@ + s@,
        BinaryNinjaError::BinaryNinjaError(s) => "Binary Ninja returned error: "@ + s@,
        BinaryNinjaError::FunctionNotFound(s) => "Function '"@ + s@ + "' not found"@,
        BinaryNinjaError::Timeout => "Timeout waiting for response"@,
    }
}

impl BinaryNinjaError {
    /// The human-readable message of this error.
    pub fn message(&self) -> (res: String)
        ensures
            res@ == error_message(*self),
    {
        match self {
            BinaryNinjaError::NoServersAvailable => String::from_str("No Binary Ninja servers found"),
            BinaryNinjaError::ServerNotFound(s) => {
                let mut m = String::from_str("Binary server '");
                m.append(s.as_str());
                m.append("' not found");
                m
            },
            BinaryNinjaError::RequestFailed(s) => {
                let mut m = String::from_str("HTTP request failed: ");
                m.append(s.as_str());
                m
            },
            BinaryNinjaError::ParseError(s) => {
                let mut m = String::from_str("Failed to parse response: ");
                m.append(s.as_str());
                m
            },
            BinaryNinjaError::BinaryNinjaError(s) => {
                let mut m = String::from_str("Binary Ninja returned error: ");
                m.append(s.as_str());
                m
            },
            BinaryNinjaError::FunctionNotFound(s) => {
                let mut m = String::from_str("Function '");
                m.append(s.as_str());
                m.append("' not found");
                m
            },
            BinaryNinjaError::Timeout => String::from_str("Timeout waiting for response"),
        }
    }
}

// ---------------------------------------------------------------------------
// Configuration
// ---------------------------------------------------------------------------

/// The `Duration` that `Duration::from_secs` gives for `secs` seconds.
pub uninterp spec fn seconds_duration(secs: u64) -> Duration;

/// `std::time::Duration::from_secs`: a duration of whole seconds.  Its
/// result is named `seconds_duration`; nothing more is claimed of it.
#[verifier::external_body]
fn duration_from_secs(secs: u64) -> (d: Duration)
    ensures
        d == seconds_duration(secs),
{
    Duration::from_secs(secs)
}

/// Configuration for a Binary Ninja MCP client.
#[derive(Debug)]
pub struct ClientConfig {
    /// Base URL for the servers.
    pub base_url: String,
    /// First port scanned by discovery.
    pub base_port: u16,
    /// Number of ports scanned by discovery.
    pub max_servers: usize,
    /// Connection timeout.
    pub connect_timeout: Duration,
    /// Read timeout.
    pub read_timeout: Duration,
    /// Retries for failed requests.
    pub max_retries: usize,
}

impl Clone for ClientConfig {
    fn clone(&self) -> (res: Self)
        ensures
            res.base_url@ == self.base_url@,
            res.base_port == self.base_port,
            res.max_servers == self.max_servers,
            res.connect_timeout == self.connect_timeout,
            res.read_timeout == self.read_timeout,
            res.max_retries == self.max_retries,
    {
        ClientConfig {
            base_url: self.base_url.clone(),
            base_port: self.base_port,
            max_servers: self.max_servers,
            connect_timeout: self.connect_timeout,
            read_timeout: self.read_timeout,
            max_retries: self.max_retries,
        }
    }
}

impl Default for ClientConfig {
    fn default() -> (res: Self)
        ensures
            res.base_url@ == "http://localhost"@,
            res.base_port == 9009,
            res.max_servers == 10,
            res.connect_timeout == seconds_duration(2),
            res.read_timeout == seconds_duration(30),
            res.max_retries == 2,
    {
        ClientConfig {
            base_url: String::from_str("http://localhost"),
            base_port: 9009,
            max_servers: 10,
            connect_timeout: duration_from_secs(2),
            read_timeout: duration_from_secs(30),
            max_retries: 2,
        }
    }
}

// ---------------------------------------------------------------------------
// Records
// ---------------------------------------------------------------------------

/// Metadata about a loaded binary.
#[derive(Debug, Clone, PartialEq)]
pub struct BinaryMetadata {
    pub architecture: Option<String>,
    pub platform: Option<String>,
    pub entry_point: Option<String>,
    pub function_count: Option<usize>,
}

/// A Binary Ninja MCP server instance.
#[derive(Debug, Clone, PartialEq)]
pub struct BinaryNinjaServer {
    /// Identifier of the server, `port_<n>`.
    pub binary_id: String,
    /// Full URL of the server.
    pub url: String,
    /// Port the server listens on.
    pub port: u16,
    /// File name of the loaded binary.
    pub filename: String,
    pub metadata: Option<BinaryMetadata>,
}

/// Information about a binary.
#[derive(Debug, Clone, PartialEq)]
pub struct BinaryInfo {
    pub binary_id: String,
    pub filename: String,
    pub loaded: bool,
    pub metadata: Option<BinaryMetadata>,
}

/// Symbol information for a function.
#[derive(Debug, Clone, PartialEq)]
pub struct SymbolInfo {
    pub symbol_type: Option<String>,
    pub full_name: Option<String>,
}

/// A function of a binary.
#[derive(Debug, Clone, PartialEq)]
pub struct FunctionInfo {
    pub name: String,
    /// Hexadecimal address, such as `0x401000`; empty where unknown.
    pub address: String,
    pub raw_name: Option<String>,
    pub symbol: Option<SymbolInfo>,
    pub decompiled_code: Option<String>,
}

/// A reply of the status endpoint.
#[derive(Debug, Clone)]
pub struct StatusResponse {
    pub loaded: bool,
    pub filename: Option<String>,
}

/// A reply of the methods endpoint.
#[derive(Debug, Clone)]
pub struct MethodsResponse {
    pub methods: Vec<String>,
}

/// A reply of the search endpoint.
#[derive(Debug, Clone)]
pub struct SearchResponse {
    pub functions: Vec<FunctionInfo>,
}

/// A reply of the decompile endpoint.
#[derive(Debug, Clone)]
pub struct DecompileResponse {
    pub code: String,
}

/// `f` holds just a name and an address.
pub open spec fn plain_function(f: FunctionInfo, name: Seq<char>, address: Seq<char>) -> bool {
    &&& f.name@ == name
    &&& f.address@ == address
    &&& f.raw_name is None
    &&& f.symbol is None
    &&& f.decompiled_code is None
}

impl FunctionInfo {
    /// A function with a name and an address and nothing else.
    pub fn new(name: String, address: String) -> (res: Self)
        ensures
            plain_function(res, name@, address@),
    {
        FunctionInfo { name, address, raw_name: None, symbol: None, decompiled_code: None }
    }

    /// A function known by its name alone (its address is empty).
    pub fn from_name(name: String) -> (res: Self)
        ensures
            plain_function(res, name@, Seq::empty()),
    {
        FunctionInfo { name, address: String::new(), raw_name: None, symbol: None, decompiled_code: None }
    }
}

impl BinaryNinjaServer {
    /// A server record without metadata.
    pub fn new(binary_id: String, url: String, port: u16, filename: String) -> (res: Self)
        ensures
            res.binary_id@ == binary_id@,
            res.url@ == url@,
            res.port == port,
            res.filename@ == filename@,
            res.metadata is None,
    {
        BinaryNinjaServer { binary_id, url, port, filename, metadata: None }
    }
}

// ---------------------------------------------------------------------------
// Servers and their URLs
// ---------------------------------------------------------------------------

/// The id of the server on `port`: `port_<port>`.
pub open spec fn server_id(port: u16) -> Seq<char> {
    "port_"@ + decimal(port as nat)
}

/// The URL of the server on `port` under `base`: `<base>:<port>`.
pub open spec fn port_url(base: Seq<char>, port: u16) -> Seq<char> {
    base + ":"@ + decimal(port as nat)
}

/// The port written at the end of a server URL, after its last `':'`;
/// 9009 where that piece is no port number.
pub open spec fn port_of_url(url: Seq<char>) -> u16 {
    match parsed_u16(after_last(url, ':')) {
        Some(p) => p,
        None => 9009,
    }
}

/// The port that the server id `binary_id` names: the number after its
/// `port_` prefix.
pub open spec fn port_of_id(binary_id: Seq<char>) -> Option<u16> {
    if is_prefix(binary_id, "port_"@) {
        parsed_u16(binary_id.skip("port_"@.len() as int))
    } else {
        None
    }
}

/// The port written at the end of a server URL.
pub fn port_from_url(url: &str) -> (res: u16)
    ensures
        res == port_of_url(url@),
{
    let piece = split_last_piece(url, ':');
    match parse_u16(piece.as_str()) {
        Some(p) => p,
        None => 9009,
    }
}

/// `<base>:<port>`.
fn make_port_url(base: &String, port: u16) -> (res: String)
    ensures
        res@ == port_url(base@, port),
{
    let mut u = base.clone();
    u.append(":");
    let digits = usize_to_decimal(port as usize);
    u.append(digits.as_str());
    u
}

/// The URL of the server that `binary_id` names.
pub fn get_server_url(config: &ClientConfig, binary_id: &str) -> (res: Result<String, BinaryNinjaError>)
    ensures
        match port_of_id(binary_id@) {
            Some(p) => res matches Ok(u) && u@ == port_url(config.base_url@, p),
            None => res matches Err(BinaryNinjaError::ServerNotFound(id)) && id@ == binary_id@,
        },
{
    if str_starts_with(binary_id, "port_") {
        proof {
            reveal_strlit("port_");
        }
        let n = binary_id.unicode_len();
        let rest = binary_id.substring_char(5, n);
        match parse_u16(rest) {
            Some(p) => {
                return Ok(make_port_url(&config.base_url, p));
            },
            None => {},
        }
    }
    Err(BinaryNinjaError::ServerNotFound(string_of(binary_id)))
}

/// Discovery probes ports `base_port`, `base_port + 1`, ... one per
/// server slot; every one of them is a valid port.
pub open spec fn discovery_fits(base_port: u16, max_servers: usize) -> bool {
    max_servers == 0 || base_port + (if max_servers - 1 < 0x10000 { max_servers - 1 } else { 0xffff }) <= 0xffff
}

/// The port probed by discovery for slot `offset`.
pub open spec fn discovery_port(base_port: u16, offset: int) -> u16 {
    (base_port + offset % 0x10000) as u16
}

/// The ports and URLs that discovery probes, in order.
pub fn discovery_targets(config: &ClientConfig) -> (res: Vec<(u16, String)>)
    requires
        discovery_fits(config.base_port, config.max_servers),
    ensures
        res.len() == config.max_servers,
        forall|i: int| 0 <= i < res.len() ==> {
            &&& (#[trigger] res[i]).0 == discovery_port(config.base_port, i)
            &&& res[i].1@ == port_url(config.base_url@, res[i].0)
        },
{
    let mut res: Vec<(u16, String)> = Vec::new();
    let mut offset: usize = 0;
    while offset < config.max_servers
        invariant
            discovery_fits(config.base_port, config.max_servers),
            offset <= config.max_servers,
            res.len() == offset,
            forall|i: int| 0 <= i < res.len() ==> {
                &&& (#[trigger] res[i]).0 == discovery_port(config.base_port, i)
                &&& res[i].1@ == port_url(config.base_url@, res[i].0)
            },
        decreases config.max_servers - offset,
    {
        let step: u16 = (offset % 0x10000) as u16;
        assert(config.base_port + step <= 0xffff);
        let port: u16 = config.base_port + step;
        let url = make_port_url(&config.base_url, port);
        res.push((port, url));
        offset += 1;
    }
    res
}

/// The file name reported by a status reply; `unknown` when it has none.
pub open spec fn reported_filename(filename: Option<String>) -> Seq<char> {
    match filename {
        Some(f) => f@,
        None => "unknown"@,
    }
}

fn filename_or_unknown(filename: &Option<String>) -> (res: String)
    ensures
        res@ == reported_filename(*filename),
{
    match filename {
        Some(f) => f.clone(),
        None => String::from_str("unknown"),
    }
}

/// The server found at `url`, from its status reply: there is one exactly
/// when a binary is loaded.
pub fn server_from_status(url: &str, status: &StatusResponse) -> (res: Option<BinaryNinjaServer>)
    ensures
        res is Some <==> status.loaded,
        res matches Some(s) ==> {
            &&& s.port == port_of_url(url@)
            &&& s.binary_id@ == server_id(s.port)
            &&& s.url@ == url@
            &&& s.filename@ == reported_filename(status.filename)
            &&& s.metadata is None
        },
{
    if status.loaded {
        let port = port_from_url(url);
        let mut binary_id = String::from_str("port_");
        let digits = usize_to_decimal(port as usize);
        binary_id.append(digits.as_str());
        let filename = filename_or_unknown(&status.filename);
        Some(BinaryNinjaServer::new(binary_id, string_of(url), port, filename))
    } else {
        None
    }
}

/// The information on binary `binary_id`, from its status reply.
pub fn binary_info_from_status(binary_id: &str, status: &StatusResponse) -> (res: BinaryInfo)
    ensures
        res.binary_id@ == binary_id@,
        res.filename@ == reported_filename(status.filename),
        res.loaded == status.loaded,
        res.metadata is None,
{
    BinaryInfo {
        binary_id: string_of(binary_id),
        filename: filename_or_unknown(&status.filename),
        loaded: status.loaded,
        metadata: None,
    }
}

/// A reply of the decompile endpoint reports a failure.
pub open spec fn decompile_failed(code: Seq<char>) -> bool {
    is_prefix(code, "Error"@) || is_prefix(code, "Function not found"@)
}

/// The decompiled code of `function_name`, from the decompile reply `code`.
pub fn decompiled_code(function_name: &str, code: String) -> (res: Result<String, BinaryNinjaError>)
    ensures
        decompile_failed(code@) ==> (res matches Err(BinaryNinjaError::FunctionNotFound(n)) && n@ == function_name@),
        !decompile_failed(code@) ==> (res matches Ok(c) && c@ == code@),
{
    if str_starts_with(code.as_str(), "Error") || str_starts_with(code.as_str(), "Function not found") {
        Err(BinaryNinjaError::FunctionNotFound(string_of(function_name)))
    } else {
        Ok(code)
    }
}

/// The outcome of a decompile request: a reply without success names no
/// function; a successful reply `code` is read as `decompiled_code` reads it.
pub fn decompile_outcome(function_name: &str, success: bool, code: String) -> (res: Result<String, BinaryNinjaError>)
    ensures
        !success ==> (res matches Err(BinaryNinjaError::FunctionNotFound(n)) && n@ == function_name@),
        success && decompile_failed(code@) ==> (res matches Err(BinaryNinjaError::FunctionNotFound(n)) && n@ == function_name@),
        success && !decompile_failed(code@) ==> (res matches Ok(c) && c@ == code@),
{
    if !success {
        return Err(BinaryNinjaError::FunctionNotFound(string_of(function_name)));
    }
    decompiled_code(function_name, code)
}

// ---------------------------------------------------------------------------
// Function listings
// ---------------------------------------------------------------------------

/// For the JSON document `text`, the entries of the array under `key`: for
/// each element, its `name` and its `address` where they are strings.
/// `None` where `text` is no JSON or `key` holds no array.
pub uninterp spec fn json_entries(text: Seq<char>, key: Seq<char>) -> Option<Seq<(Option<Seq<char>>, Option<Seq<char>>)>>;

pub open spec fn entry_views(v: Seq<(Option<String>, Option<String>)>) -> Seq<(Option<Seq<char>>, Option<Seq<char>>)> {
    v.map_values(|e: (Option<String>, Option<String>)| (opt_chars(e.0), opt_chars(e.1)))
}

pub open spec fn opt_entry_views(o: Option<Vec<(Option<String>, Option<String>)>>) -> Option<Seq<(Option<Seq<char>>, Option<Seq<char>>)>> {
    match o {
        Some(v) => Some(entry_views(v@)),
        None => None,
    }
}

/// `serde_json::from_str::<serde_json::Value>`, then `Value::get` of `key`
/// and `Value::as_array`, and for each element `Value::get` of `name` and
/// `address` with `Value::as_str`.  What it returns is named `json_entries`;
/// nothing more is claimed of it.
#[verifier::external_body]
fn json_name_address_entries(text: &str, key: &str) -> (res: Option<Vec<(Option<String>, Option<String>)>>)
    ensures
        opt_entry_views(res) == json_entries(text@, key@),
{
    let value: serde_json::Value = serde_json::from_str(text).ok()?;
    let array = value.get(key)?.as_array()?;
    Some(array.iter().map(|f| (
        f.get("name").and_then(|v| v.as_str()).map(|s| s.to_string()),
        f.get("address").and_then(|v| v.as_str()).map(|s| s.to_string()),
    )).collect())
}

/// The (name, address) pairs of the entries that have both.
pub open spec fn complete_entries(es: Seq<(Option<Seq<char>>, Option<Seq<char>>)>) -> Seq<(Seq<char>, Seq<char>)>
    decreases es.len(),
{
    if es.len() == 0 {
        Seq::empty()
    } else {
        let rest = complete_entries(es.drop_last());
        match es.last() {
            (Some(n), Some(a)) => rest.push((n, a)),
            _ => rest,
        }
    }
}

/// The (name, empty address) pairs of the lines `ls`, without the empty
/// lines where `skip_empty` holds.
pub open spec fn line_entries(ls: Seq<Seq<char>>, skip_empty: bool) -> Seq<(Seq<char>, Seq<char>)>
    decreases ls.len(),
{
    if ls.len() == 0 {
        Seq::empty()
    } else {
        let rest = line_entries(ls.drop_last(), skip_empty);
        if skip_empty && ls.last().len() == 0 {
            rest
        } else {
            rest.push((ls.last(), Seq::empty()))
        }
    }
}

/// `fs` holds, in order, the functions with the names and addresses of
/// `pairs`, and nothing else.
pub open spec fn lists_functions(fs: Seq<FunctionInfo>, pairs: Seq<(Seq<char>, Seq<char>)>) -> bool {
    &&& fs.len() == pairs.len()
    &&& forall|i: int| 0 <= i < fs.len() ==> plain_function(#[trigger] fs[i], pairs[i].0, pairs[i].1)
}

/// The functions of the JSON entries that have both a name and an address.
pub fn functions_from_entries(entries: &Vec<(Option<String>, Option<String>)>) -> (res: Vec<FunctionInfo>)
    ensures
        lists_functions(res@, complete_entries(entry_views(entries@))),
{
    let mut res: Vec<FunctionInfo> = Vec::new();
    let mut i: usize = 0;
    while i < entries.len()
        invariant
            i <= entries.len(),
            lists_functions(res@, complete_entries(entry_views(entries@.take(i as int)))),
        decreases entries.len() - i,
    {
        assert(entry_views(entries@.take(i + 1)).drop_last() =~= entry_views(entries@.take(i as int)));
        match &entries[i] {
            (Some(n), Some(a)) => {
                res.push(FunctionInfo::new(n.clone(), a.clone()));
            },
            _ => {},
        }
        i += 1;
    }
    assert(entries@.take(entries.len() as int) =~= entries@);
    res
}

/// The functions named by the lines of `text`, without the empty lines
/// where `skip_empty` holds.
pub fn functions_from_lines(text: &str, skip_empty: bool) -> (res: Vec<FunctionInfo>)
    ensures
        lists_functions(res@, line_entries(lines(text@), skip_empty)),
{
    let ls = split_lines(text);
    let mut res: Vec<FunctionInfo> = Vec::new();
    let mut i: usize = 0;
    while i < ls.len()
        invariant
            i <= ls.len(),
            string_views(ls@) == lines(text@),
            lists_functions(res@, line_entries(string_views(ls@.take(i as int)), skip_empty)),
        decreases ls.len() - i,
    {
        assert(string_views(ls@.take(i + 1)).drop_last() =~= string_views(ls@.take(i as int)));
        if !(skip_empty && ls[i].as_str().is_empty()) {
            res.push(FunctionInfo::from_name(ls[i].clone()));
        }
        i += 1;
    }
    assert(ls@.take(ls.len() as int) =~= ls@);
    res
}

/// The functions that a listing reply `text` names under `key`: those of
/// its JSON entries, or else those of its lines.
pub open spec fn listed_function_pairs(text: Seq<char>, key: Seq<char>, skip_empty: bool) -> Seq<(Seq<char>, Seq<char>)> {
    match json_entries(text, key) {
        Some(es) => complete_entries(es),
        None => line_entries(lines(text), skip_empty),
    }
}

/// The functions of a reply of the methods endpoint.
pub fn parse_function_list(text: &str) -> (res: Vec<FunctionInfo>)
    ensures
        lists_functions(res@, listed_function_pairs(text@, "functions"@, false)),
{
    match json_name_address_entries(text, "functions") {
        Some(entries) => functions_from_entries(&entries),
        None => functions_from_lines(text, false),
    }
}

/// The functions of a reply of the search endpoint.
pub fn parse_search_results(text: &str) -> (res: Vec<FunctionInfo>)
    ensures
        lists_functions(res@, listed_function_pairs(text@, "matches"@, true)),
{
    match json_name_address_entries(text, "matches") {
        Some(entries) => functions_from_entries(&entries),
        None => functions_from_lines(text, true),
    }
}

// ---------------------------------------------------------------------------
// Laws
// ---------------------------------------------------------------------------

/// Discovery and lookup agree: the server found at the URL of port `p` is
/// known by the id `port_<p>`; that id names port `p` again (so the server's
/// URL is found from its id), and the port is read back from the URL.
pub proof fn lemma_server_id_roundtrip(base: Seq<char>, p: u16)
    ensures
        port_of_url(port_url(base, p)) == p,
        port_of_id(server_id(p)) == Some(p),
{
    let d = decimal(p as nat);
    crate::text::lemma_decimal_digits(p as nat);
    crate::text::lemma_parse_decimal_u16(p);
    reveal_strlit(":");
    reveal_strlit("port_");
    let url = port_url(base, p);
    assert(url =~= base + seq![':'] + d);
    assert forall|j: int| base.len() < j < url.len() implies url[j] != ':' by {
        assert(url[j] == d[j - base.len() - 1]);
        assert(is_digit(d[j - base.len() - 1]));
    }
    crate::text::lemma_last_index_unique(url, ':', base.len() as int);
    assert(url.subrange(base.len() as int + 1, url.len() as int) =~= d);
    let id = server_id(p);
    assert(is_prefix(id, "port_"@));
    assert(id.skip("port_"@.len() as int) =~= d);
}

/// Discovery probes distinct ports, each the base port plus its slot.
pub proof fn lemma_discovery_ports_distinct(base_port: u16, max_servers: usize, a: int, b: int)
    requires
        discovery_fits(base_port, max_servers),
        0 <= a < b < max_servers,
        b < 0x10000,
    ensures
        discovery_port(base_port, a) == base_port + a,
        discovery_port(base_port, b) == base_port + b,
        discovery_port(base_port, a) != discovery_port(base_port, b),
{
    assert(a % 0x10000 == a);
    assert(b % 0x10000 == b);
}

} // verus!
