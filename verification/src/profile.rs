//! What a connection can be made to, and how it is named.
use std::path::PathBuf;
use vstd::prelude::*;

verus! {

/// `std::path::PathBuf`, carried through unread.
#[verifier::external_type_specification]
#[verifier::external_body]
pub struct ExPathBuf(PathBuf);

/// Calls `PathBuf::clone`. Trusted: the clone is a duplicate of the path.
#[verifier::external_body]
pub(crate) fn clone_path(path: &PathBuf) -> (copy: PathBuf)
    ensures
        copy == *path,
{
    path.clone()
}

/// Stable name of a saved machine.
#[derive(Debug, PartialEq, Eq, Hash)]
pub struct ProfileId {
    text: String,
}

impl View for ProfileId {
    type V = Seq<char>;

    closed spec fn view(&self) -> Seq<char> {
        self.text@
    }
}

impl Clone for ProfileId {
    fn clone(&self) -> (copy: ProfileId)
        ensures
            copy == *self,
    {
        ProfileId { text: self.text.clone() }
    }
}

impl ProfileId {
    pub fn new(text: String) -> (id: ProfileId)
        ensures
            id@ == text@,
    {
        ProfileId { text }
    }

    pub fn as_str(&self) -> (text: &str)
        ensures
            text@ == self@,
    {
        self.text.as_str()
    }

    /// Whether the two names read the same.
    pub fn matches(&self, other: &ProfileId) -> (same: bool)
        ensures
            same == (self@ == other@),
    {
        self.text == other.text
    }
}

/// A saved machine, reached over SSH.
#[derive(Debug, PartialEq, Eq)]
pub struct SavedSshEndpoint {
    pub id: ProfileId,
    /// What the user calls the machine. Changing it disturbs nothing.
    pub label: String,
    pub target: String,
    pub session: String,
    pub enabled: bool,
}

impl Clone for SavedSshEndpoint {
    fn clone(&self) -> (copy: SavedSshEndpoint)
        ensures
            copy == *self,
    {
        SavedSshEndpoint {
            id: self.id.clone(),
            label: self.label.clone(),
            target: self.target.clone(),
            session: self.session.clone(),
            enabled: self.enabled,
        }
    }
}

/// An endpoint as contracts tell it apart from others: by the text of its name.
pub enum EndpointKey {
    Local,
    Ssh(Seq<char>),
}

/// Which endpoint a connection belongs to.
#[derive(Debug, PartialEq, Eq, Hash)]
pub enum ClientEndpointId {
    Local,
    Ssh(ProfileId),
}

impl View for ClientEndpointId {
    type V = EndpointKey;

    open spec fn view(&self) -> EndpointKey {
        match self {
            ClientEndpointId::Local => EndpointKey::Local,
            ClientEndpointId::Ssh(id) => EndpointKey::Ssh(id@),
        }
    }
}

impl Clone for ClientEndpointId {
    fn clone(&self) -> (copy: ClientEndpointId)
        ensures
            copy == *self,
    {
        match self {
            ClientEndpointId::Local => ClientEndpointId::Local,
            ClientEndpointId::Ssh(id) => ClientEndpointId::Ssh(id.clone()),
        }
    }
}

impl ClientEndpointId {
    pub fn is_local(&self) -> (local: bool)
        ensures
            local == (self@ == EndpointKey::Local),
    {
        match self {
            ClientEndpointId::Local => true,
            ClientEndpointId::Ssh(_) => false,
        }
    }

    /// Whether both name the same endpoint.
    pub fn matches(&self, other: &ClientEndpointId) -> (same: bool)
        ensures
            same == (self@ == other@),
    {
        match (self, other) {
            (ClientEndpointId::Local, ClientEndpointId::Local) => true,
            (ClientEndpointId::Ssh(a), ClientEndpointId::Ssh(b)) => a.matches(b),
            _ => false,
        }
    }
}

/// Where an endpoint's connection stands.
#[derive(Clone, Copy, Debug, PartialEq, Eq, Structural)]
pub enum ClientEndpointStatus {
    Connecting,
    Online,
    Reconnecting,
    /// Retrying is pointless until the user has acted.
    Attention,
    Disabled,
}

/// What to dial for an endpoint.
#[derive(Debug, PartialEq, Eq)]
pub enum ConnectTarget {
    Local(PathBuf),
    Ssh(SavedSshEndpoint),
}

impl Clone for ConnectTarget {
    fn clone(&self) -> (copy: ConnectTarget)
        ensures
            copy == *self,
    {
        match self {
            ConnectTarget::Local(path) => ConnectTarget::Local(clone_path(path)),
            ConnectTarget::Ssh(profile) => ConnectTarget::Ssh(profile.clone()),
        }
    }
}

} // verus!
