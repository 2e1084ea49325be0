//! The two ends of a tunnel: the proxy and the remote host behind it.

use vstd::prelude::*;

verus! {

/// The protocol that a proxy speaks.
#[derive(Clone, Copy, Debug, PartialEq, Eq, Structural)]
pub enum ProxyType {
    Http,
    Socks5,
}

/// What a conversation with a proxy is for. It decides how the request is
/// worded, how the reply is judged and how failures are reported.
#[derive(Clone, Copy, Debug, PartialEq, Eq, Structural)]
pub enum Purpose {
    /// Carrying a connection to a remote host.
    Tunnel,
    /// Testing that the proxy works.
    Probe,
}

/// A proxy and the credentials to use with it.
#[derive(Debug)]
pub struct ProxyEndpoint {
    pub proxy_type: ProxyType,
    pub host: String,
    pub port: u16,
    pub username: String,
    pub password: String,
}

/// The host that the proxy is asked to connect to.
#[derive(Debug)]
pub struct RemoteEndpoint {
    pub host: String,
    pub port: u16,
}

/// The model of a [`ProxyEndpoint`].
pub struct ProxyView {
    pub proxy_type: ProxyType,
    pub host: Seq<char>,
    pub port: u16,
    pub username: Seq<char>,
    pub password: Seq<char>,
}

/// The model of a [`RemoteEndpoint`].
pub struct RemoteView {
    pub host: Seq<char>,
    pub port: u16,
}

impl View for ProxyEndpoint {
    type V = ProxyView;

    open spec fn view(&self) -> ProxyView {
        ProxyView {
            proxy_type: self.proxy_type,
            host: self.host@,
            port: self.port,
            username: self.username@,
            password: self.password@,
        }
    }
}

impl View for RemoteEndpoint {
    type V = RemoteView;

    open spec fn view(&self) -> RemoteView {
        RemoteView { host: self.host@, port: self.port }
    }
}

impl ProxyView {
    /// Whether there are credentials to offer.
    pub open spec fn wants_auth(self) -> bool {
        self.username.len() > 0 || self.password.len() > 0
    }
}

impl Clone for ProxyEndpoint {
    fn clone(&self) -> (copy: Self)
        ensures
            copy@ == self@,
    {
        ProxyEndpoint {
            proxy_type: self.proxy_type,
            host: self.host.clone(),
            port: self.port,
            username: self.username.clone(),
            password: self.password.clone(),
        }
    }
}

impl Clone for RemoteEndpoint {
    fn clone(&self) -> (copy: Self)
        ensures
            copy@ == self@,
    {
        RemoteEndpoint { host: self.host.clone(), port: self.port }
    }
}

impl ProxyEndpoint {
    pub fn new(
        proxy_type: ProxyType,
        host: &str,
        port: u16,
        username: &str,
        password: &str,
    ) -> (proxy: Self)
        ensures
            proxy@ == (ProxyView {
                proxy_type,
                host: host@,
                port,
                username: username@,
                password: password@,
            }),
    {
        ProxyEndpoint {
            proxy_type,
            host: host.to_owned(),
            port,
            username: username.to_owned(),
            password: password.to_owned(),
        }
    }

    /// Whether there are credentials to offer.
    pub fn wants_auth(&self) -> (yes: bool)
        ensures
            yes == self@.wants_auth(),
    {
        !self.username.as_str().is_empty() || !self.password.as_str().is_empty()
    }
}

impl RemoteEndpoint {
    pub fn new(host: &str, port: u16) -> (remote: Self)
        ensures
            remote@ == (RemoteView { host: host@, port }),
    {
        RemoteEndpoint { host: host.to_owned(), port }
    }
}

} // verus!
