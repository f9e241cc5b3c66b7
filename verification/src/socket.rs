use mio::net::UnixListener;
use vstd::prelude::*;

verus! {

/// mio's unix listener, carried by a socket; binding it and accepting
/// connections on it happen in the code that drives the socket.
#[verifier::external_type_specification]
#[verifier::external_body]
pub struct ExUnixListener(UnixListener);

/// Why a socket cannot be built.
#[derive(Debug, Clone, Copy, PartialEq, Eq, Structural)]
pub enum BuildError {
    /// No path was given.
    MissingPath,
}

/// What a socket is to be built from: the path to bind, and the
/// permission bits to give the socket file, if any.
#[derive(Debug, Clone)]
pub struct SocketConfig {
    pub path: String,
    pub permissions: Option<u32>,
}

/// A unix socket bound at `path`.
pub struct Socket {
    pub path: String,
    pub listener: UnixListener,
    pub permissions: Option<u32>,
}

impl Socket {
    /// The socket of `config` once its listener is bound.
    pub fn from_config(config: SocketConfig, listener: UnixListener) -> (s: Socket)
        ensures
            s.path@ == config.path@,
            s.listener == listener,
            s.permissions == config.permissions,
    {
        Socket { path: config.path, listener, permissions: config.permissions }
    }
}

/// Gathers the settings of a socket.
#[derive(Debug, Clone)]
pub struct SocketBuilder {
    pub path: Option<String>,
    pub permissions: Option<u32>,
}

impl SocketBuilder {
    /// A builder with no path and no permissions.
    pub fn new() -> (b: Self)
        ensures
            b.path is None,
            b.permissions is None,
    {
        SocketBuilder { path: None, permissions: None }
    }

    /// The builder with the path set.
    pub fn with_path(self, path: &str) -> (b: Self)
        ensures
            b.path matches Some(p) && p@ == path@,
            b.permissions == self.permissions,
    {
        SocketBuilder { path: Some(path.to_owned()), permissions: self.permissions }
    }

    /// The builder with the permission bits set, such as `0o600`.
    pub fn with_permissions(self, permissions: u32) -> (b: Self)
        ensures
            b.path == self.path,
            b.permissions == Some(permissions),
    {
        SocketBuilder { path: self.path, permissions: Some(permissions) }
    }

    /// The settings to build the socket from; fails when no path was given.
    pub fn build(self) -> (r: Result<SocketConfig, BuildError>)
        ensures
            self.path is None ==> r == Err::<SocketConfig, BuildError>(BuildError::MissingPath),
            self.path matches Some(p) ==> r matches Ok(c) && c.path == p && c.permissions
                == self.permissions,
    {
        match self.path {
            None => Err(BuildError::MissingPath),
            Some(path) => Ok(SocketConfig { path, permissions: self.permissions }),
        }
    }
}

} // verus!
