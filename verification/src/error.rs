//! What can be wrong with a transport configuration.

use vstd::prelude::*;

verus! {

/// An error in a transport configuration.
pub enum TransportError {
    /// Socket security is left to automatic selection.
    SocketNotConfigured,
    /// The name of the folder to watch is empty.
    EmptyFolder,
    /// There is no transport for the sending address.
    MissingTransport { self_addr: String },
    /// The account has no sending address.
    NotConfigured,
    /// The stored kind of certificate checks is unknown.
    InvalidCertificateChecks,
    /// No SMTP password is stored.
    MissingSmtpPassword,
    /// No IMAP password is stored.
    MissingImapPassword,
    /// The stored list of IMAP servers cannot be read.
    UnreadableImapServers,
    /// The stored list of SMTP servers cannot be read.
    UnreadableSmtpServers,
    /// No SMTP server is stored.
    MissingSmtpServer,
}

impl TransportError {
    /// The text of the error.
    pub open spec fn message(&self) -> Seq<char> {
        match self {
            TransportError::SocketNotConfigured => "Socket security is not configured"@,
            TransportError::EmptyFolder => "Configured watched folder name cannot be empty"@,
            TransportError::MissingTransport { self_addr } => "Self address "@ + self_addr@
                + " doesn't have a corresponding transport"@,
            TransportError::NotConfigured => "Account is not configured"@,
            TransportError::InvalidCertificateChecks =>
                "Invalid configured_imap_certificate_checks value"@,
            TransportError::MissingSmtpPassword => "SMTP password is not configured"@,
            TransportError::MissingImapPassword => "IMAP password is not configured"@,
            TransportError::UnreadableImapServers => "Failed to parse configured IMAP servers"@,
            TransportError::UnreadableSmtpServers => "Failed to parse configured SMTP servers"@,
            TransportError::MissingSmtpServer => "SMTP server is not configured"@,
        }
    }

    /// The text of the error.
    pub fn to_string(&self) -> (r: String)
        ensures
            r@ == self.message(),
    {
        match self {
            TransportError::SocketNotConfigured => "Socket security is not configured".to_owned(),
            TransportError::EmptyFolder => {
                "Configured watched folder name cannot be empty".to_owned()
            },
            TransportError::MissingTransport { self_addr } => {
                let mut r = "Self address ".to_owned();
                r.append(self_addr.as_str());
                r.append(" doesn't have a corresponding transport");
                r
            },
            TransportError::NotConfigured => "Account is not configured".to_owned(),
            TransportError::InvalidCertificateChecks => {
                "Invalid configured_imap_certificate_checks value".to_owned()
            },
            TransportError::MissingSmtpPassword => "SMTP password is not configured".to_owned(),
            TransportError::MissingImapPassword => "IMAP password is not configured".to_owned(),
            TransportError::UnreadableImapServers => {
                "Failed to parse configured IMAP servers".to_owned()
            },
            TransportError::UnreadableSmtpServers => {
                "Failed to parse configured SMTP servers".to_owned()
            },
            TransportError::MissingSmtpServer => "SMTP server is not configured".to_owned(),
        }
    }
}

} // verus!
