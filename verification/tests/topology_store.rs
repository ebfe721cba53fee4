use mongo_telemetry::topology::{DatabaseTopology, SerializableServerType, ServerDescription};
use mongodb::bson::{Bson, Document};

fn server(address: &str, kind: SerializableServerType) -> ServerDescription {
    let mut tags = Document::new();
    tags.insert("dc", Bson::String("east".to_string()));
    ServerDescription {
        address: address.to_string(),
        average_round_trip_time: Some("12".to_string()),
        last_update_time: None,
        max_wire_version: Some(17),
        min_wire_version: Some(0),
        replicat_set_name: Some("rs0".to_string()),
        replicate_set_version: None,
        server_type: kind,
        tags: Some(tags),
    }
}

#[test]
fn no_topology_observed_yet_is_empty() {
    assert!(DatabaseTopology::new().get_database_topology().is_empty());
}

#[test]
fn topology_is_handed_back_as_given() {
    let mut topology = DatabaseTopology::new();
    let servers = vec![
        server("a:27017", SerializableServerType::Standalone),
        server("b:27017", SerializableServerType::Other("RsPrimary".to_string())),
    ];
    topology.replace_document(servers.clone());
    assert_eq!(topology.get_database_topology(), servers);
}

#[test]
fn replacement_keeps_nothing_of_the_old_description() {
    let mut topology = DatabaseTopology::new();
    topology.replace_document(vec![
        server("a:27017", SerializableServerType::Standalone),
        server("b:27017", SerializableServerType::Standalone),
        server("c:27017", SerializableServerType::Standalone),
    ]);
    let replacement = vec![server("d:27017", SerializableServerType::Other("Mongos".to_string()))];
    topology.replace_document(replacement.clone());
    assert_eq!(topology.get_database_topology(), replacement);
    topology.replace_document(Vec::new());
    assert!(topology.get_database_topology().is_empty());
}

#[test]
fn copy_of_the_topology_is_independent() {
    let mut topology = DatabaseTopology::new();
    topology.replace_document(vec![server("a:27017", SerializableServerType::Standalone)]);
    let mut copy = topology.get_database_topology();
    copy[0].address = "changed".to_string();
    assert_eq!(topology.get_database_topology()[0].address, "a:27017");
}
