//! Client of the out-of-process session daemon, reached over a local socket.
//!
//! The client here owns the socket location and everything decidable without
//! I/O; the surrounding application opens the connections, writes the request
//! lines built by [`crate::protocol`] and reads the response lines back.

use vstd::prelude::*;
use vstd::string::StringExecFns;

verus! {

/// Relies on `dirs::home_dir`: the user's home directory as the platform
/// reports it now, if any.
#[verifier::external_body]
fn home_dir_string() -> (r: Option<String>)
{
    dirs::home_dir().map(|p| p.to_string_lossy().to_string())
}

/// Relies on `std::path::Path::exists`: whether the path names an existing
/// filesystem entry at this moment.
#[verifier::external_body]
fn path_exists(p: &str) -> (r: bool)
{
    std::path::Path::new(p).exists()
}

pub struct SessiondClient {
    socket_path: String,
}

impl SessiondClient {
    pub closed spec fn socket_path(&self) -> Seq<char> {
        self.socket_path@
    }

    pub fn new(socket_path: &str) -> (r: SessiondClient)
        ensures
            r.socket_path() == socket_path@,
    {
        SessiondClient { socket_path: socket_path.to_owned() }
    }

    /// The socket location this client talks to.
    pub fn socket(&self) -> (r: &str)
        ensures
            r@ == self.socket_path(),
    {
        self.socket_path.as_str()
    }

    /// The socket location under a home directory: the development socket
    /// when preferred, else the production one. An unknown home (empty)
    /// yields a relative path under the working directory.
    pub fn socket_path_for(home: &str, prefer_dev: bool) -> (r: String)
        ensures
            r@ == spec_socket_path(home@, prefer_dev),
    {
        let mut p = home.to_owned();
        if home.is_empty() {
            proof {
                assert(p@ + Seq::<char>::empty() =~= p@);
            }
        } else {
            p.append("/");
        }
        if prefer_dev {
            p.append(".workset/sessiond-dev.sock");
        } else {
            p.append(".workset/sessiond.sock");
        }
        p
    }

    /// The default socket location under the user's configuration
    /// directory, preferring the development socket over the production one
    /// exactly when it exists at this moment. The probes are environmental;
    /// the choice they feed is [`SessiondClient::socket_path_for`]. The
    /// existence check happens on each call, once per client construction.
    pub fn default_socket_path() -> (r: String)
        ensures
            exists|h: Seq<char>, dev: bool| r@ == spec_socket_path(h, dev),
    {
        let home = match home_dir_string() {
            Some(h) => h,
            None => String::new(),
        };
        let dev_candidate = SessiondClient::socket_path_for(home.as_str(), true);
        let prefer_dev = path_exists(dev_candidate.as_str());
        let r = SessiondClient::socket_path_for(home.as_str(), prefer_dev);
        proof {
            assert(r@ == spec_socket_path(home@, prefer_dev));
        }
        r
    }
}

/// The socket path a home directory and the development preference
/// determine: `home/.workset/sessiond-dev.sock` when preferred, else
/// `home/.workset/sessiond.sock`; relative when the home is unknown.
pub open spec fn spec_socket_path(home: Seq<char>, prefer_dev: bool) -> Seq<char> {
    (if home.len() == 0 {
        Seq::<char>::empty()
    } else {
        home + "/"@
    }) + (if prefer_dev {
        ".workset/sessiond-dev.sock"@
    } else {
        ".workset/sessiond.sock"@
    })
}

/// Whether the daemon appears to be running: its socket exists on disk.
pub fn is_sessiond_running(socket_path: &str) -> (r: bool)
{
    path_exists(socket_path)
}

/// Health probe: reports not-running when the socket is absent, healthy
/// otherwise. Never an error — absence of the daemon is a state, not a
/// failure.
pub fn check_health(socket_path: &str) -> (r: Result<bool, String>)
    ensures
        r is Ok,
{
    if !is_sessiond_running(socket_path) {
        return Ok(false);
    }
    let _client = SessiondClient::new(socket_path);
    Ok(true)
}

} // verus!
