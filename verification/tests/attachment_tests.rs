use newt::attachments::{AttachmentCollection, HostSurface};

#[test]
fn attachments_are_retrieved_by_the_handle_their_load_returned() {
    let mut collection: AttachmentCollection<String> = AttachmentCollection::new();

    let first = collection.load("first".to_string());
    let second = collection.load("second".to_string());

    assert!(first != second);
    assert_eq!(collection.retrieve(first), Some(&"first".to_string()));
    assert_eq!(collection.retrieve(second), Some(&"second".to_string()));
}

#[test]
fn attachments_unknown_handles_retrieve_nothing() {
    let mut other: AttachmentCollection<u8> = AttachmentCollection::new();
    let _ = other.load(1);
    let unknown = other.load(2);

    let mut collection: AttachmentCollection<u8> = AttachmentCollection::new();
    let _ = collection.load(7);

    assert_eq!(collection.retrieve(unknown), None);
}

#[test]
fn host_surface_copies_its_bytes() {
    let bytes = vec![1, 2, 3, 4];
    let surface = HostSurface::new(&bytes, 1, 1);

    assert_eq!(surface.bytes(), &bytes);
    assert_eq!(surface.width(), 1);
    assert_eq!(surface.height(), 1);
}
