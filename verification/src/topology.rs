//! The most recent description of the cluster's servers.

use mongodb::bson::Document;
use vstd::prelude::*;

verus! {

/// The kind of a server: a standalone, or any other kind under the driver's
/// label for it.
#[derive(Debug, PartialEq)]
pub enum SerializableServerType {
    Standalone,
    Other(String),
}

/// What is known of one server of the cluster.
#[derive(Debug, PartialEq)]
pub struct ServerDescription {
    pub address: String,
    pub average_round_trip_time: Option<String>,
    pub last_update_time: Option<String>,
    pub max_wire_version: Option<i32>,
    pub min_wire_version: Option<i32>,
    pub replicat_set_name: Option<String>,
    pub replicate_set_version: Option<i32>,
    pub server_type: SerializableServerType,
    pub tags: Option<Document>,
}

/// A copy of an optional text.
fn copy_text(text: &Option<String>) -> (copy: Option<String>)
    ensures
        copy == *text,
{
    match text {
        Some(value) => Some(value.clone()),
        None => None,
    }
}

/// A copy of an optional tag set.
fn copy_tags(tags: &Option<Document>) -> (copy: Option<Document>)
    ensures
        copy == *tags,
{
    match tags {
        Some(value) => Some(value.clone()),
        None => None,
    }
}

impl Clone for SerializableServerType {
    fn clone(&self) -> (copy: Self)
        ensures
            copy == *self,
    {
        match self {
            SerializableServerType::Standalone => SerializableServerType::Standalone,
            SerializableServerType::Other(label) => SerializableServerType::Other(label.clone()),
        }
    }
}

impl Clone for ServerDescription {
    fn clone(&self) -> (copy: Self)
        ensures
            copy == *self,
    {
        ServerDescription {
            address: self.address.clone(),
            average_round_trip_time: copy_text(&self.average_round_trip_time),
            last_update_time: copy_text(&self.last_update_time),
            max_wire_version: self.max_wire_version,
            min_wire_version: self.min_wire_version,
            replicat_set_name: copy_text(&self.replicat_set_name),
            replicate_set_version: self.replicate_set_version,
            server_type: self.server_type.clone(),
            tags: copy_tags(&self.tags),
        }
    }
}

/// The servers of the cluster as the latest topology change described them.
pub struct DatabaseTopology {
    servers: Vec<ServerDescription>,
}

impl View for DatabaseTopology {
    type V = Seq<ServerDescription>;

    closed spec fn view(&self) -> Seq<ServerDescription> {
        self.servers@
    }
}

impl DatabaseTopology {
    /// A topology of which no server is known yet.
    pub fn new() -> (topology: Self)
        ensures
            topology@ == Seq::<ServerDescription>::empty(),
    {
        DatabaseTopology { servers: Vec::new() }
    }

    /// Replaces the whole description by `servers`. Nothing of the earlier
    /// description is kept or merged.
    pub fn replace_document(&mut self, servers: Vec<ServerDescription>)
        ensures
            final(self)@ == servers@,
    {
        self.servers = servers;
    }

    /// A copy of the current description, in the order it was given.
    pub fn get_database_topology(&self) -> (servers: Vec<ServerDescription>)
        ensures
            servers@ == self@,
    {
        let mut servers: Vec<ServerDescription> = Vec::new();
        let mut i: usize = 0;
        while i < self.servers.len()
            invariant
                i <= self.servers@.len(),
                servers@ == self.servers@.take(i as int),
            decreases self.servers@.len() - i,
        {
            servers.push(self.servers[i].clone());
            i += 1;
            assert(servers@ =~= self.servers@.take(i as int));
        }
        assert(self.servers@.take(i as int) =~= self.servers@);
        servers
    }
}

impl Default for DatabaseTopology {
    fn default() -> (topology: Self)
        ensures
            topology@ == Seq::<ServerDescription>::empty(),
    {
        DatabaseTopology::new()
    }
}

} // verus!
