//! Objects of the JSON-RPC interface.

use vstd::prelude::*;

verus! {

/// A source of a client with its version, as the core knows it.
pub struct AppSource {
    pub version_integer: u32,
    pub version_string: String,
    pub download_url: String,
}

/// Version information of a single source of a client, for example an app store.
pub struct JsonrpcAppSource {
    /// Version number, which only ever increases.
    pub version_integer: u32,
    /// Version to be shown to the user. It must not be turned into a link, as it may look like a
    /// phone number or an IP address.
    pub version_string: String,
    /// Where to download the version. Whoever downloads it has to check the files.
    pub download_url: String,
}

impl JsonrpcAppSource {
    /// Takes over what the core knows.
    pub fn from_core_type(source: AppSource) -> (r: JsonrpcAppSource)
        ensures
            r == (JsonrpcAppSource {
                version_integer: source.version_integer,
                version_string: source.version_string,
                download_url: source.download_url,
            }),
    {
        JsonrpcAppSource {
            version_integer: source.version_integer,
            version_string: source.version_string,
            download_url: source.download_url,
        }
    }
}

/// A contact, as the core knows it.
pub struct Contact {
    pub id: u32,
    pub addr: String,
    /// Color as a hexadecimal string.
    pub color: String,
    pub authname: String,
    pub status: String,
    pub display_name: String,
    pub name: String,
    pub is_blocked: bool,
    pub is_key_contact: bool,
    pub last_seen: i64,
    pub was_seen_recently: bool,
    pub is_bot: bool,
}

/// Where the profile image of a contact is.
pub enum ProfileImage {
    /// There is no image.
    Missing,
    /// There is one, but its path is not Unicode.
    NotUnicode,
    /// The path of the image.
    Path(String),
}

/// A contact.
pub struct ContactObject {
    pub address: String,
    pub color: String,
    pub auth_name: String,
    pub status: String,
    pub display_name: String,
    pub id: u32,
    pub name: String,
    /// Path of the profile image.
    pub profile_image: Option<String>,
    pub is_blocked: bool,
    /// Whether the contact is a key contact.
    pub is_key_contact: bool,
    /// Whether encryption is available for the contact, which only a key contact can have. A key
    /// contact may lack it, for example if only its fingerprint is known.
    pub e2ee_avail: bool,
    /// When the contact was last seen.
    pub last_seen: i64,
    pub was_seen_recently: bool,
    /// Whether the contact is a bot.
    pub is_bot: bool,
}

impl ContactObject {
    /// Takes over what the core knows of a contact. An image whose path is not Unicode is left
    /// out. Only for a key contact encryption can be available.
    pub fn try_from_dc_contact(
        contact: Contact,
        profile_image: ProfileImage,
        e2ee_avail: bool,
    ) -> (r: ContactObject)
        requires
            e2ee_avail ==> contact.is_key_contact,
        ensures
            r.e2ee_avail ==> r.is_key_contact,
            r == (ContactObject {
                address: contact.addr,
                color: contact.color,
                auth_name: contact.authname,
                status: contact.status,
                display_name: contact.display_name,
                id: contact.id,
                name: contact.name,
                profile_image: match profile_image {
                    ProfileImage::Path(path) => Some(path),
                    _ => None,
                },
                is_blocked: contact.is_blocked,
                is_key_contact: contact.is_key_contact,
                e2ee_avail,
                last_seen: contact.last_seen,
                was_seen_recently: contact.was_seen_recently,
                is_bot: contact.is_bot,
            }),
    {
        let profile_image = match profile_image {
            ProfileImage::Path(path) => Some(path),
            ProfileImage::Missing => None,
            ProfileImage::NotUnicode => None,
        };
        ContactObject {
            address: contact.addr,
            color: contact.color,
            auth_name: contact.authname,
            status: contact.status,
            display_name: contact.display_name,
            id: contact.id,
            name: contact.name,
            profile_image,
            is_blocked: contact.is_blocked,
            is_key_contact: contact.is_key_contact,
            e2ee_avail,
            last_seen: contact.last_seen,
            was_seen_recently: contact.was_seen_recently,
            is_bot: contact.is_bot,
        }
    }
}

/// The contents of a vCard, and the color that stands for it.
pub struct Vcard {
    /// Address.
    pub addr: String,
    /// Name, empty if none was given.
    pub authname: String,
    /// Public key in Base64.
    pub key: Option<String>,
    /// Profile image in Base64.
    pub profile_image: Option<String>,
    /// When the vCard was updated last, `None` if that cannot be read.
    pub timestamp: Option<i64>,
    /// Color as a hexadecimal string.
    pub color: String,
}

/// A contact out of a vCard.
pub struct VcardContact {
    /// Address.
    pub addr: String,
    /// The name of the contact, or the address if no name was given.
    pub display_name: String,
    /// Public key in Base64.
    pub key: Option<String>,
    /// Profile image in Base64.
    pub profile_image: Option<String>,
    /// Color as a hexadecimal string.
    pub color: String,
    /// When the vCard was updated last.
    pub timestamp: Option<i64>,
}

impl From<Vcard> for VcardContact {
    fn from(vc: Vcard) -> (r: VcardContact) {
        let display_name = if vc.authname.as_str().is_empty() {
            vc.addr.clone()
        } else {
            vc.authname
        };
        VcardContact {
            addr: vc.addr,
            display_name,
            key: vc.key,
            profile_image: vc.profile_image,
            color: vc.color,
            timestamp: vc.timestamp,
        }
    }
}

impl vstd::std_specs::convert::FromSpecImpl<Vcard> for VcardContact {
    open spec fn obeys_from_spec() -> bool {
        true
    }

    open spec fn from_spec(vc: Vcard) -> VcardContact {
        VcardContact {
            addr: vc.addr,
            display_name: if vc.authname@.len() == 0 {
                vc.addr
            } else {
                vc.authname
            },
            key: vc.key,
            profile_image: vc.profile_image,
            color: vc.color,
            timestamp: vc.timestamp,
        }
    }
}

/// A contact out of a vCard has the name of the vCard, or its address if the name is empty. All
/// else is taken over.
pub proof fn law_vcard_contact_has_a_name(vc: Vcard)
    ensures
        ({
            let contact = <VcardContact as vstd::std_specs::convert::FromSpec<Vcard>>::from_spec(
                vc,
            );
            &&& vc.authname@.len() > 0 ==> contact.display_name == vc.authname
            &&& vc.authname@.len() == 0 ==> contact.display_name == vc.addr
            &&& contact.addr == vc.addr
            &&& contact.key == vc.key
            &&& contact.profile_image == vc.profile_image
            &&& contact.color == vc.color
            &&& contact.timestamp == vc.timestamp
        }),
{
}

} // verus!
