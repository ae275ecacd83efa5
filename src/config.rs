use vstd::prelude::*;
use crate::error::{Error, ErrorKind, validation_error};
use crate::uuid::{Uuid, uuid2tc, uuid_text, canonical_uuid};
use crate::access_mode::{AccessMode, access_mode_name};

verus! {

/// Where a replica synchronizes to.
pub enum ServerConfig {
    /// A server kept in a local directory.
    Local { server_dir: String },
    /// A remote sync server, addressed by URL, holding this client's encrypted data.
    Remote { url: String, client_id: Uuid, encryption_secret: String },
    /// A Google Cloud Storage bucket.
    Gcp { bucket: String, credential_path: String, encryption_secret: String },
}

/// What a server configuration says, over plain values.
pub enum ServerView {
    Local { server_dir: Seq<char> },
    Remote { url: Seq<char>, client_id: Seq<char>, encryption_secret: Seq<char> },
    Gcp { bucket: Seq<char>, credential_path: Seq<char>, encryption_secret: Seq<char> },
}

impl ServerConfig {
    pub open spec fn view(&self) -> ServerView {
        match self {
            ServerConfig::Local { server_dir } => ServerView::Local { server_dir: server_dir@ },
            ServerConfig::Remote { url, client_id, encryption_secret } => ServerView::Remote {
                url: url@,
                client_id: client_id.view(),
                encryption_secret: encryption_secret@,
            },
            ServerConfig::Gcp { bucket, credential_path, encryption_secret } => ServerView::Gcp {
                bucket: bucket@,
                credential_path: credential_path@,
                encryption_secret: encryption_secret@,
            },
        }
    }

    pub fn local(server_dir: &str) -> (r: ServerConfig)
        ensures
            r.view() == (ServerView::Local { server_dir: server_dir@ }),
    {
        ServerConfig::Local { server_dir: String::from_str(server_dir) }
    }

    /// A remote server configuration from the parameters a caller gave; each is
    /// required, and the client id must be a UUID.
    pub fn remote(url: Option<String>, client_id: Option<String>, encryption_secret: Option<String>) -> (r: Result<
        ServerConfig,
        Error,
    >)
        ensures
            r is Ok <==> url is Some && client_id is Some && encryption_secret is Some && uuid_text(
                client_id->0@,
            ),
            r is Ok ==> r->Ok_0.view() == (ServerView::Remote {
                url: url->0@,
                client_id: canonical_uuid(client_id->0@),
                encryption_secret: encryption_secret->0@,
            }),
            r is Err ==> r->Err_0.kind == ErrorKind::Validation,
    {
        let url = match url {
            Some(u) => u,
            None => return Err(validation_error("Missing required parameter: url")),
        };
        let client_id = match client_id {
            Some(c) => c,
            None => return Err(validation_error("Missing required parameter: client_id")),
        };
        let encryption_secret = match encryption_secret {
            Some(e) => e,
            None => return Err(validation_error("Missing required parameter: encryption_secret")),
        };
        let id = uuid2tc(client_id.as_str())?;
        Ok(ServerConfig::Remote { url, client_id: id, encryption_secret })
    }

    /// A Google Cloud Storage configuration from the parameters a caller gave;
    /// each is required.
    pub fn gcp(bucket: Option<String>, credential_path: Option<String>, encryption_secret: Option<String>) -> (r:
        Result<ServerConfig, Error>)
        ensures
            r is Ok <==> bucket is Some && credential_path is Some && encryption_secret is Some,
            r is Ok ==> r->Ok_0.view() == (ServerView::Gcp {
                bucket: bucket->0@,
                credential_path: credential_path->0@,
                encryption_secret: encryption_secret->0@,
            }),
            r is Err ==> r->Err_0.kind == ErrorKind::Validation,
    {
        let bucket = match bucket {
            Some(b) => b,
            None => return Err(validation_error("Missing required parameter: bucket")),
        };
        let credential_path = match credential_path {
            Some(c) => c,
            None => return Err(validation_error("Missing required parameter: credential_path")),
        };
        let encryption_secret = match encryption_secret {
            Some(e) => e,
            None => return Err(validation_error("Missing required parameter: encryption_secret")),
        };
        Ok(ServerConfig::Gcp { bucket, credential_path, encryption_secret })
    }
}

/// Where a replica keeps its tasks.
pub enum StorageConfig {
    /// A database in a directory on disk.
    OnDisk { taskdb_dir: String, create_if_missing: bool, access_mode: AccessMode },
    /// A database held in memory only.
    InMemory,
}

impl StorageConfig {
    /// An on-disk configuration; the access mode, named by its symbol, is
    /// `read_write` unless given.
    pub fn on_disk(path: &str, create_if_missing: bool, access_mode: Option<&str>) -> (r: Result<StorageConfig, Error>)
        ensures
            r is Ok <==> (access_mode matches Some(m) ==> (m@ == "read_only"@ || m@ == "read_write"@)),
            r matches Ok(StorageConfig::OnDisk { taskdb_dir, create_if_missing: c, access_mode: mode }) ==> taskdb_dir@
                == path@ && c == create_if_missing && access_mode_name(mode) == match access_mode {
                Some(m) => m@,
                None => "read_write"@,
            },
            r is Ok ==> r->Ok_0 is OnDisk,
            r is Err ==> r->Err_0.kind == ErrorKind::Config,
    {
        let mode = match access_mode {
            Some(m) => AccessMode::from_symbol(m)?,
            None => AccessMode::ReadWrite,
        };
        Ok(StorageConfig::OnDisk { taskdb_dir: String::from_str(path), create_if_missing, access_mode: mode })
    }

    pub fn in_memory() -> (r: StorageConfig)
        ensures
            r is InMemory,
    {
        StorageConfig::InMemory
    }
}

} // verus!
