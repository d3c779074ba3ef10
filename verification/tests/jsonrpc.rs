use relaymail::jsonrpc::{
    AppSource, Contact, ContactObject, JsonrpcAppSource, ProfileImage, Vcard, VcardContact,
};

#[test]
fn app_source_is_taken_over() {
    let source = JsonrpcAppSource::from_core_type(AppSource {
        version_integer: 42,
        version_string: "1.2.3".to_string(),
        download_url: "https://example.org".to_string(),
    });
    assert_eq!(source.version_integer, 42);
    assert_eq!(source.version_string, "1.2.3");
    assert_eq!(source.download_url, "https://example.org");
}

fn contact() -> Contact {
    Contact {
        id: 11,
        addr: "bob@example.net".to_string(),
        color: "#112233".to_string(),
        authname: "Bob".to_string(),
        status: "hi".to_string(),
        display_name: "Bobby".to_string(),
        name: "B".to_string(),
        is_blocked: false,
        is_key_contact: true,
        last_seen: 5,
        was_seen_recently: true,
        is_bot: false,
    }
}

#[test]
fn contact_is_taken_over() {
    let path = ProfileImage::Path("/blobs/a.png".to_string());
    let object = ContactObject::try_from_dc_contact(contact(), path, true);
    assert_eq!(object.address, "bob@example.net");
    assert_eq!(object.color, "#112233");
    assert_eq!(object.auth_name, "Bob");
    assert_eq!(object.status, "hi");
    assert_eq!(object.display_name, "Bobby");
    assert_eq!(object.id, 11);
    assert_eq!(object.name, "B");
    assert_eq!(object.profile_image.as_deref(), Some("/blobs/a.png"));
    assert!(!object.is_blocked);
    assert!(object.is_key_contact);
    assert!(object.e2ee_avail);
    assert_eq!(object.last_seen, 5);
    assert!(object.was_seen_recently);
    assert!(!object.is_bot);

    for image in [ProfileImage::Missing, ProfileImage::NotUnicode] {
        let object = ContactObject::try_from_dc_contact(contact(), image, false);
        assert_eq!(object.profile_image, None);
        assert!(!object.e2ee_avail);
    }
}

#[test]
fn vcard_without_name_shows_the_address() {
    let vcard = |name: &str| Vcard {
        addr: "bob@example.net".to_string(),
        authname: name.to_string(),
        key: Some("key".to_string()),
        profile_image: None,
        timestamp: Some(3),
        color: "#000000".to_string(),
    };
    let named = VcardContact::from(vcard("Bob"));
    assert_eq!(named.display_name, "Bob");
    assert_eq!(named.addr, "bob@example.net");
    assert_eq!(named.key.as_deref(), Some("key"));
    assert_eq!(named.profile_image, None);
    assert_eq!(named.timestamp, Some(3));
    assert_eq!(named.color, "#000000");
    assert_eq!(VcardContact::from(vcard("")).display_name, "bob@example.net");
}
