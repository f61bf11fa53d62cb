use homelab_utils::mdns::{clean_local, record_resolved, service_label, service_types, MdnsRecord};
use homelab_utils::model::IpAddress;

#[test]
fn service_labels_and_hostnames() {
    assert_eq!(service_label("_ssh._tcp.local."), "_ssh._tcp");
    assert_eq!(service_label("_http._tcp.local..local."), "_http._tcp");
    assert_eq!(service_label("_x._tcp"), "_x._tcp");
    assert_eq!(clean_local("nas.local."), "nas.local");
    assert_eq!(clean_local("nas.."), "nas");
    assert_eq!(service_types().len(), 9);
    assert_eq!(service_types()[0], "_ssh._tcp.local.");
}

#[test]
fn resolved_instances_fold_per_address() {
    let a = IpAddress::V4(192, 168, 1, 9);
    let b = IpAddress::V4(192, 168, 1, 10);
    let mut table: Vec<(IpAddress, MdnsRecord)> = Vec::new();
    record_resolved(&mut table, "_ssh._tcp.local.", "nas.local.", &vec![a, b]);
    record_resolved(&mut table, "_smb._tcp.local.", "other.local.", &vec![a]);
    record_resolved(&mut table, "_ssh._tcp.local.", "nas.local.", &vec![a]);
    assert_eq!(table.len(), 2);
    assert_eq!(table[0].0, a);
    assert_eq!(table[0].1.hostname.as_deref(), Some("nas.local"));
    assert_eq!(table[0].1.services, vec!["_ssh._tcp", "_smb._tcp"]);
    assert_eq!(table[1].0, b);
    assert_eq!(table[1].1.services, vec!["_ssh._tcp"]);
}
