//! The SDK's file server: its settings, when it may start and stop, the
//! records of shared files and the lookup that serves a download.

use vstd::prelude::*;
use crate::common::clock::now_millis;
use crate::common::decimal::{decimal_text, hex_digits, u64_to_lower_hex, u64_to_string};
use crate::common::text::{concat, str_eq};
use crate::discovery::broadcast::{hex_encode, hex_text, random_u64};
use crate::sdk::state::{SDKState, has_file_id};
use crate::sdk::types::{FileInfo, SDKError};
use crate::torrent::hash::{sha1, sha1_digest};

verus! {

/// How the file server listens.
#[derive(Debug, Clone)]
pub struct ServerConfig {
    pub bind_address: String,
    pub port: u16,
    pub upload_enabled: bool,
    pub download_enabled: bool,
}

impl Default for ServerConfig {
    fn default() -> (r: ServerConfig)
        ensures
            r.bind_address@ == "0.0.0.0"@,
            r.port == 8080,
            r.upload_enabled,
            r.download_enabled,
    {
        ServerConfig { bind_address: "0.0.0.0".to_string(), port: 8080, upload_enabled: true, download_enabled: true }
    }
}

/// The file server, as the SDK tracks it: the port it listens on while it
/// runs, and its settings.
pub struct FileServerModule {
    port: Option<u16>,
    config: ServerConfig,
}

impl FileServerModule {
    /// The port while running.
    pub closed spec fn listening(&self) -> Option<u16> {
        self.port
    }

    /// The settings last started with.
    pub closed spec fn settings(&self) -> ServerConfig {
        self.config
    }

    /// Not started, default settings.
    pub fn new() -> (r: FileServerModule)
        ensures
            r.listening() is None,
            r.settings().port == 8080,
    {
        FileServerModule { port: None, config: ServerConfig::default() }
    }

    /// The settings to start on `port`: the defaults with that port.
    pub fn config_for(port: u16) -> (r: ServerConfig)
        ensures
            r.bind_address@ == "0.0.0.0"@,
            r.port == port,
            r.upload_enabled,
            r.download_enabled,
    {
        ServerConfig { port, ..ServerConfig::default() }
    }

    /// The server may start only when it is not running.
    pub fn check_start(state: &SDKState) -> (r: Result<(), SDKError>)
        ensures
            state.server_running ==> r matches Err(SDKError::AlreadyRunning),
            !state.server_running ==> r is Ok,
    {
        if state.is_server_running() {
            Err(SDKError::AlreadyRunning)
        } else {
            Ok(())
        }
    }

    /// Records that the server started with `config` and listens on
    /// `actual_port`, and marks it running.
    pub fn started(&mut self, state: &mut SDKState, config: ServerConfig, actual_port: u16)
        ensures
            final(self).listening() == Some(actual_port),
            final(self).settings() == config,
            final(state).server_running,
            final(state).discovery_running == old(state).discovery_running,
            final(state).devices@ == old(state).devices@,
            final(state).shared_files@ == old(state).shared_files@,
            final(state).transfers@ == old(state).transfers@,
    {
        self.port = Some(actual_port);
        self.config = config;
        state.set_server_running(true);
    }

    /// Stops the server: refused when it is not running; otherwise it is
    /// marked stopped and its port forgotten.
    pub fn stop(&mut self, state: &mut SDKState) -> (r: Result<(), SDKError>)
        ensures
            !old(state).server_running ==> (r matches Err(SDKError::NotFound(m)) && m@ == "Server not running"@)
                && final(state).server_running == old(state).server_running && final(self).listening() == old(
                self,
            ).listening(),
            old(state).server_running ==> r is Ok && !final(state).server_running && final(self).listening() is None,
            final(state).discovery_running == old(state).discovery_running,
            final(state).devices@ == old(state).devices@,
            final(state).shared_files@ == old(state).shared_files@,
            final(state).transfers@ == old(state).transfers@,
    {
        if !state.is_server_running() {
            return Err(SDKError::NotFound("Server not running".to_string()));
        }
        self.port = None;
        state.set_server_running(false);
        Ok(())
    }

    /// The port while running.
    pub fn get_port(&self) -> (r: Option<u16>)
        ensures
            r == self.listening(),
    {
        self.port
    }
}

/// A shared file's id: the seconds and a random number in hexadecimal,
/// joined by a hyphen.
pub open spec fn file_id_text(secs: u64, random: u64) -> Seq<char> {
    decimal_text(secs as nat) + "-"@ + hex_digits(random as nat)
}

/// The id of a shared file made at `secs` with the random number `random`.
pub fn file_id(secs: u64, random: u64) -> (r: String)
    ensures
        r@ == file_id_text(secs, random),
{
    let a = u64_to_string(secs);
    let b = concat(a.as_str(), "-");
    let c = u64_to_lower_hex(random);
    concat(b.as_str(), c.as_str())
}

/// A fresh id for the shared file at `_path`: the time in seconds and a
/// random number. The path does not enter the id.
pub fn generate_file_id(_path: &str) -> (r: String)
    ensures
        exists|secs: u64, random: u64| r@ == file_id_text(secs, random),
{
    let secs = now_millis() / 1000;
    let random = random_u64();
    file_id(secs, random)
}

/// The hash shown for a file's content: its SHA-1 digest in lowercase
/// hexadecimal.
pub fn file_hash_hex(content: &[u8]) -> (r: String)
    ensures
        r@ == hex_text(sha1_digest(content@)),
{
    let digest = sha1(content);
    hex_encode(&digest)
}

/// The MIME type `mime_guess` guesses from a path's extension, or
/// `application/octet-stream`. It is a function of the path alone.
pub uninterp spec fn guessed_mime_type(path: Seq<char>) -> Seq<char>;

/// Calls `mime_guess::from_path(path).first_or_octet_stream()` and turns the
/// type into text. Claimed: the result depends on the path alone (the
/// name `guessed_mime_type`); the crate looks only at the extension.
#[verifier::external_body]
fn mime_type_for(path: &str) -> (r: String)
    ensures
        r@ == guessed_mime_type(path@),
{
    mime_guess::from_path(path).first_or_octet_stream().to_string()
}

/// The record of a shared file at `path`, named `name`, of `size` bytes,
/// whose content is `content`: a fresh id, the guessed type and the
/// content's hash.
pub fn shared_file_record(path: String, name: String, size: u64, content: &[u8]) -> (r: FileInfo)
    ensures
        r.path == path,
        r.name == name,
        r.size == size,
        r.mime_type@ == guessed_mime_type(path@),
        r.hash@ == hex_text(sha1_digest(content@)),
        exists|secs: u64, random: u64| r.id@ == file_id_text(secs, random),
{
    let id = generate_file_id(path.as_str());
    let mime_type = mime_type_for(path.as_str());
    let hash = file_hash_hex(content);
    FileInfo { id, name, path, size, mime_type, hash }
}

/// The first shared file with this id.
pub open spec fn first_with_id(s: Seq<FileInfo>, id: Seq<char>) -> Option<int> {
    if has_file_id(s, id) {
        Some(choose|i: int| 0 <= i < s.len() && s[i].id@ == id && forall|j: int| 0 <= j < i ==> s[j].id@ != id)
    } else {
        None
    }
}

/// The shared file a download asks for by id, if it is shared.
pub fn file_for_download(state: &SDKState, file_id: &str) -> (r: Option<FileInfo>)
    ensures
        match first_with_id(state.shared_files@, file_id@) {
            Some(i) => r == Some(state.shared_files@[i]),
            None => r is None,
        },
{
    let ghost s = state.shared_files@;
    let mut i: usize = 0;
    while i < state.shared_files.len()
        invariant
            s == state.shared_files@,
            i <= s.len(),
            forall|j: int| 0 <= j < i ==> s[j].id@ != file_id@,
        decreases state.shared_files.len() - i,
    {
        if str_eq(state.shared_files[i].id.as_str(), file_id) {
            proof {
                assert(has_file_id(s, file_id@));
                let w = choose|w: int| 0 <= w < s.len() && s[w].id@ == file_id@ && forall|j: int| 0 <= j < w ==> s[j].id@
                    != file_id@;
                assert(w == i) by {
                    if w < i {
                        assert(s[w].id@ != file_id@);
                    } else if w > i {
                        assert(s[i as int].id@ != file_id@);
                    }
                }
            }
            return Some(state.shared_files[i].copy());
        }
        i = i + 1;
    }
    assert(!has_file_id(s, file_id@));
    None
}

} // verus!
