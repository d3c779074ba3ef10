//! What comes of a call that makes, reads or compares texts, or takes over fields.

use vstd::prelude::*;

use crate::address;
use crate::connect_job::{ServerAction, ServerJob};
use crate::delivery;
use crate::delivery::Delivery;
use crate::error::TransportError;
use crate::jsonrpc::{AppSource, Contact, ContactObject, JsonrpcAppSource, ProfileImage};
use crate::keyupdate;
use crate::keyupdate::KeyupdateRecipient;
use crate::mdn_queue;
use crate::mdn_queue::MdnQueue;
use crate::order;
use crate::queue::{Encryption, SideEffects};
use crate::send_course;
use crate::send_job;
use crate::smtp::{Smtp, SmtpError};
use crate::text;
use crate::text_set;
use crate::text_set::TextSet;
use crate::transport::{
    ConfiguredCertificateChecks, ConfiguredLoginParam, ConfiguredServerLoginParam,
    ConnectionCandidate, ConnectionSecurity, Socket,
};
use crate::transport_laws;
use crate::transport_load;
use crate::transport_store;
use crate::transport_store::TransportStore;

verus! {

// ---------------------------------------------------------------------------
// Texts
// ---------------------------------------------------------------------------

/// A text is taken apart into its characters and put together from them.
pub proof fn law_characters_of_a_text(s: &str, chars: Vec<char>, from: usize, to: usize, r: String)
    requires
        from <= to <= chars@.len(),
    ensures
        call_ensures(text::chars_of, (s,), chars) ==> chars@ == s@,
        call_ensures(text::string_of, (&chars, from, to), r) ==> r@.len() == to - from && forall|
            i: int,
        |
            0 <= i < to - from ==> #[trigger] r@[i] == chars@[from + i],
{
}

/// Texts are the same if they have the same characters, and a list has a text if it is one of its
/// entries.
pub proof fn law_comparing_texts(a: &str, b: &str, list: Vec<String>, r: bool)
    ensures
        call_ensures(text::same_text, (a, b), r) ==> (r <==> a@ == b@),
        call_ensures(text::contains_text, (&list, a), r) ==> (r <==> exists|i: int|
            0 <= i < list@.len() && (#[trigger] list@[i])@ == a@),
        call_ensures(text::has_substring, (a, b), r) ==> (r <==> exists|i: int|
            0 <= i <= a@.len() - b@.len() && #[trigger] a@.subrange(i, i + b@.len()) == b@),
        call_ensures(text::is_text_le, (a, b), r) ==> r == text::text_le(a@, b@),
{
    let all = text::texts(list@);
    assert(all.len() == list@.len());
    if exists|i: int| 0 <= i < list@.len() && (#[trigger] list@[i])@ == a@ {
        let i = choose|i: int| 0 <= i < list@.len() && (#[trigger] list@[i])@ == a@;
        assert(all[i] == a@);
    }
    if all.contains(a@) {
        let i = all.index_of(a@);
        assert(list@[i]@ == a@);
    }
}

/// Joining puts the separator between the entries, and splitting undoes it. A stored list is split
/// at its spaces, and an empty one has no entries.
pub proof fn law_lists_in_a_text(
    list: Vec<String>,
    sep: &str,
    s: &str,
    c: char,
    joined: String,
    parts: Vec<String>,
)
    ensures
        call_ensures(text::join, (&list, sep), joined) ==> {
            &&& list@.len() == 0 ==> joined@.len() == 0
            &&& list@.len() == 1 ==> joined@ == list@[0]@
            &&& list@.len() == 2 ==> joined@ == list@[0]@ + sep@ + list@[1]@
            &&& joined@ == text::joined(text::texts(list@), sep@)
        },
        call_ensures(text::split, (s, c), parts) ==> {
            &&& parts@.len() >= 1
            &&& text::joined(text::texts(parts@), seq![c]) == s@
            &&& forall|i: int| 0 <= i < parts@.len() ==> !(#[trigger] parts@[i])@.contains(c)
        },
        call_ensures(text::load_list, (s,), parts) ==> {
            &&& s@.len() == 0 <==> parts@.len() == 0
            &&& s@.len() > 0 ==> text::joined(text::texts(parts@), seq![' ']) == s@
            &&& forall|i: int| 0 <= i < parts@.len() ==> !(#[trigger] parts@[i])@.contains(' ')
        },
{
    let all = text::texts(list@);
    let none = Seq::<Seq<char>>::empty();
    text::law_splitting(s@, c);
    text::law_stored_list(s@);
    assert(text::texts(parts@).len() == parts@.len());
    if call_ensures(text::split, (s, c), parts) {
        assert forall|i: int| 0 <= i < parts@.len() implies !(#[trigger] parts@[i])@.contains(
            c,
        ) by {
            assert(text::texts(parts@)[i] == parts@[i]@);
        }
    }
    if call_ensures(text::load_list, (s,), parts) {
        assert forall|i: int| 0 <= i < parts@.len() implies !(#[trigger] parts@[i])@.contains(
            ' ',
        ) by {
            assert(text::texts(parts@)[i] == parts@[i]@);
        }
    }
    if list@.len() == 0 {
        assert(all =~= none);
        text::law_joining(none, none, s@, sep@);
    } else if list@.len() == 1 {
        assert(all =~= seq![list@[0]@]);
        text::law_joining(none, none, list@[0]@, sep@);
    } else if list@.len() == 2 {
        let a = seq![list@[0]@];
        let b = seq![list@[1]@];
        assert(all =~= a + b);
        text::law_joining(a, b, list@[0]@, sep@);
        text::law_joining(a, b, list@[1]@, sep@);
    }
}

/// The white space of Unicode: the controls from tab to carriage return, the space, the next line
/// and the no-break space; the spaces of Ogham, of the general punctuation and of ideographs.
pub proof fn law_white_space(c: char, r: bool)
    ensures
        call_ensures(text::is_white_space, (c,), r) ==> (r <==> {
            let n = c as int;
            ||| n < 0x80 && (n == 0x20 || (n > 0x8 && n < 0xe))
            ||| 0x80 <= n && n <= 0xff && (n == 0x85 || n == 0xa0)
            ||| 0x100 <= n && n <= 0x1fff && n == 0x1680
            ||| 0x2000 <= n && n <= 0x2fff && (n < 0x200b || n == 0x2028 || n == 0x2029 || n
                == 0x202f || n == 0x205f)
            ||| 0x3000 <= n && n < 0x3001
        }),
{
}

/// A trimmed text has no white space at its ends, and of the text only white space is missing.
pub proof fn law_trimmed_text(s: &str, r: String)
    ensures
        call_ensures(text::trim, (s,), r) ==> {
            &&& r@.len() > 0 ==> !text::white_space(r@.first()) && !text::white_space(r@.last())
            &&& text::occurs(r@, s@)
            &&& forall|i: int|
                0 <= i < s@.len() && !text::white_space(#[trigger] s@[i]) ==> r@.contains(s@[i])
        },
{
    lemma_trimmed(s@);
}

proof fn lemma_trimmed(s: Seq<char>)
    ensures
        ({
            let t = text::trimmed(s);
            &&& t.len() > 0 ==> !text::white_space(t.first()) && !text::white_space(t.last())
            &&& text::occurs(t, s)
            &&& forall|i: int|
                0 <= i < s.len() && !text::white_space(#[trigger] s[i]) ==> t.contains(s[i])
        }),
    decreases s.len(),
{
    let t = text::trimmed(s);
    if s.len() > 0 && text::white_space(s.first()) {
        let rest = s.drop_first();
        lemma_trimmed(rest);
        let i = choose|i: int|
            0 <= i <= rest.len() - t.len() && #[trigger] rest.subrange(i, i + t.len()) == t;
        assert(s.subrange(i + 1, i + 1 + t.len()) =~= t);
        assert forall|i: int| 0 <= i < s.len() && !text::white_space(
            #[trigger] s[i],
        ) implies t.contains(s[i]) by {
            assert(rest[i - 1] == s[i]);
        }
    } else if s.len() > 0 && text::white_space(s.last()) {
        let rest = s.drop_last();
        lemma_trimmed(rest);
        let i = choose|i: int|
            0 <= i <= rest.len() - t.len() && #[trigger] rest.subrange(i, i + t.len()) == t;
        assert(s.subrange(i, i + t.len()) =~= t);
        assert forall|i: int| 0 <= i < s.len() && !text::white_space(
            #[trigger] s[i],
        ) implies t.contains(s[i]) by {
            assert(rest[i] == s[i]);
        }
    } else {
        assert(s.subrange(0int, 0int + t.len()) =~= t);
        assert forall|i: int| 0 <= i < s.len() implies t.contains(#[trigger] s[i]) by {
            assert(t[i] == s[i]);
        }
    }
}

/// A number is written in decimal notation without leading zeros.
pub proof fn law_number_in_a_text(n: u64, r: String)
    ensures
        call_ensures(text::decimal_text, (n,), r) ==> {
            &&& text::number_of(r@) == n
            &&& r@.len() >= 1
            &&& n > 0 ==> r@[0] != '0'
            &&& forall|i: int|
                0 <= i < r@.len() ==> '0' as int <= (#[trigger] r@[i]) as int <= '9' as int
        },
{
    text::law_decimal_is_read_back(n as nat);
}

/// Sorting keeps the texts and puts them in order.
pub proof fn law_sorted_texts(r: ())
    ensures
        forall|list: &mut Vec<String>| #[trigger]
            call_ensures(text::sort_texts, (list,), r) ==> {
                &&& (*final(list))@.to_multiset() == (*list)@.to_multiset()
                &&& forall|i: int, j: int|
                    0 <= i < j < (*final(list))@.len() ==> text::text_le(
                        (#[trigger] (*final(list))@[i])@,
                        (#[trigger] (*final(list))@[j])@,
                    )
            },
{
    assert forall|list: &mut Vec<String>| #[trigger]
        call_ensures(text::sort_texts, (list,), r) implies {
        &&& (*final(list))@.to_multiset() == (*list)@.to_multiset()
        &&& forall|i: int, j: int|
            0 <= i < j < (*final(list))@.len() ==> text::text_le(
                (#[trigger] (*final(list))@[i])@,
                (#[trigger] (*final(list))@[j])@,
            )
    } by {
        let before = text::texts((*list)@);
        let after = text::texts((*final(list))@);
        text::lemma_text_order_total();
        before.lemma_sort_by_ensures(text::text_order());
        assert forall|i: int, j: int| 0 <= i < j < (*final(list))@.len() implies text::text_le(
            (#[trigger] (*final(list))@[i])@,
            (#[trigger] (*final(list))@[j])@,
        ) by {
            assert(after[i] == (*final(list))@[i]@ && after[j] == (*final(list))@[j]@);
            assert(text::text_order()(after[i], after[j]));
        }
    }
}

/// A set of texts has exactly what was put into it, and says whether that was new.
pub proof fn law_set_of_texts(
    list: Vec<String>,
    s: String,
    a: &str,
    set: TextSet,
    has: bool,
    count: usize,
    joined: String,
)
    ensures
        call_ensures(TextSet::new, (), set) ==> !set@.contains(a@) && set.wf(),
        call_ensures(TextSet::from_list, (&list,), set) ==> (set@.contains(a@) <==> text::texts(
            list@,
        ).contains(a@)),
        call_ensures(TextSet::contains, (&set, a), has) ==> has == set@.contains(a@),
        call_ensures(TextSet::len, (&set,), count) ==> count == set@.len(),
        call_ensures(TextSet::join, (&set, a), joined) ==> joined@ == text::joined(
            text_set::listing(set@),
            a@,
        ),
        forall|t: &mut TextSet, added: bool| #[trigger]
            call_ensures(TextSet::insert, (t, s), added) && (*t).wf() ==> {
                &&& added <==> !(*t)@.contains(s@)
                &&& (*final(t))@.contains(a@) <==> (*t)@.contains(a@) || a@ == s@
            },
{
}

// ---------------------------------------------------------------------------
// Names and errors
// ---------------------------------------------------------------------------

/// The names of the kinds of security and of certificate checks.
pub proof fn law_names(
    security: ConnectionSecurity,
    checks: ConfiguredCertificateChecks,
    r: String,
)
    ensures
        call_ensures(ConnectionSecurity::to_string, (&security,), r) ==> {
            &&& security is Tls ==> r@ == "tls"@
            &&& security is Starttls ==> r@ == "starttls"@
            &&& security is Plain ==> r@ == "plain"@
        },
        call_ensures(ConfiguredCertificateChecks::to_string, (&checks,), r) ==> {
            &&& checks is OldAutomatic ==> r@ == "old_automatic"@
            &&& checks is Strict ==> r@ == "strict"@
            &&& checks is AcceptInvalidCertificates ==> r@ == "accept_invalid_certificates"@
            &&& checks is AcceptInvalidCertificates2 ==> r@ == "accept_invalid_certificates2"@
            &&& checks is Automatic ==> r@ == "automatic"@
        },
{
}

/// A setting of the security is taken over unless it is left to automatic selection, which is an
/// error; and a stored number stands for a kind of certificate checks if it is from zero to four.
pub proof fn law_reading_settings(
    socket: Socket,
    security: Result<ConnectionSecurity, TransportError>,
    value: i32,
    checks: Option<ConfiguredCertificateChecks>,
)
    ensures
        call_ensures(ConnectionSecurity::try_from, (socket,), security) ==> {
            &&& socket is Automatic ==> security is Err && security->Err_0 is SocketNotConfigured
            &&& socket is Ssl ==> security is Ok && security->Ok_0 is Tls
            &&& socket is Starttls ==> security is Ok && security->Ok_0 is Starttls
            &&& socket is Plain ==> security is Ok && security->Ok_0 is Plain
        },
        call_ensures(ConfiguredCertificateChecks::from_i32, (value,), checks) ==> {
            &&& checks is Some <==> 0 <= value <= 4
            &&& value == 0 ==> checks->0 is OldAutomatic
            &&& value == 1 ==> checks->0 is Strict
            &&& value == 2 ==> checks->0 is AcceptInvalidCertificates
            &&& value == 3 ==> checks->0 is AcceptInvalidCertificates2
            &&& value == 4 ==> checks->0 is Automatic
        },
{
}

/// A server is described by its host, its port and its security, and the description of login
/// parameters shows the servers, the folder in quotes and how certificates are checked.
pub proof fn law_descriptions(
    c: ConnectionCandidate,
    server: ConfiguredServerLoginParam,
    p: ConfiguredLoginParam,
    domain: &str,
    r: String,
)
    ensures
        call_ensures(ConnectionCandidate::to_string, (&c,), r) ==> r@ == c.host@ + ":"@
            + text::decimal(c.port as nat) + ":"@ + c.security.name(),
        call_ensures(ConfiguredServerLoginParam::to_string, (&server,), r) ==> r@
            == server.connection.host@ + ":"@ + text::decimal(server.connection.port as nat) + ":"@
            + server.connection.security.name(),
        call_ensures(ConfiguredLoginParam::to_string, (&p, Some(domain)), r) && p.imap@.len() == 1
            && p.smtp@.len() == 1 ==> r@ == "***@"@ + domain@ + " imap:["@
            + p.imap@[0].connection.description() + "]"@ + (match p.imap_folder {
            Some(folder) => " folder:"@ + text::quoted(folder@),
            None => Seq::empty(),
        }) + " smtp:["@ + p.smtp@[0].connection.description() + "] cert_"@
            + p.certificate_checks.name(),
        call_ensures(ConfiguredLoginParam::to_string, (&p, None), r) && p.imap@.len() == 0
            && p.smtp@.len() == 0 ==> r@ == p.addr@ + " imap:["@ + "]"@ + (match p.imap_folder {
            Some(folder) => " folder:"@ + text::quoted(folder@),
            None => Seq::empty(),
        }) + " smtp:["@ + "] cert_"@ + p.certificate_checks.name(),
{
    lemma_server_list(p.imap@);
    lemma_server_list(p.smtp@);
}

proof fn lemma_server_list(servers: Seq<ConfiguredServerLoginParam>)
    ensures
        servers.len() == 0 ==> crate::transport::server_list(servers) == Seq::<char>::empty(),
        servers.len() == 1 ==> crate::transport::server_list(servers)
            == servers[0].connection.description(),
{
    let none = Seq::<Seq<char>>::empty();
    let all = servers.map_values(
        |p: ConfiguredServerLoginParam| p.connection.description(),
    );
    if servers.len() == 0 {
        assert(all =~= none);
        text::law_joining(none, none, Seq::empty(), ", "@);
        assert(text::joined(none, ", "@) =~= Seq::<char>::empty());
    } else if servers.len() == 1 {
        assert(all =~= seq![servers[0].connection.description()]);
        text::law_joining(none, none, servers[0].connection.description(), ", "@);
    }
}

/// What the errors of a transport configuration say.
pub proof fn law_transport_errors(e: TransportError, r: String)
    ensures
        call_ensures(TransportError::to_string, (&e,), r) ==> {
            &&& e is SocketNotConfigured ==> r@ == "Socket security is not configured"@
            &&& e is EmptyFolder ==> r@ == "Configured watched folder name cannot be empty"@
            &&& e matches TransportError::MissingTransport { self_addr } ==> r@ == "Self address "@
                + self_addr@ + " doesn't have a corresponding transport"@
            &&& e is NotConfigured ==> r@ == "Account is not configured"@
            &&& e is InvalidCertificateChecks ==> r@
                == "Invalid configured_imap_certificate_checks value"@
            &&& e is MissingSmtpPassword ==> r@ == "SMTP password is not configured"@
            &&& e is MissingImapPassword ==> r@ == "IMAP password is not configured"@
            &&& e is UnreadableImapServers ==> r@ == "Failed to parse configured IMAP servers"@
            &&& e is UnreadableSmtpServers ==> r@ == "Failed to parse configured SMTP servers"@
            &&& e is MissingSmtpServer ==> r@ == "SMTP server is not configured"@
        },
{
}

/// What the errors of sending say.
pub proof fn law_sending_errors(e: SmtpError, r: String)
    ensures
        call_ensures(SmtpError::to_string, (&e,), r) ==> {
            &&& e matches SmtpError::InvalidAddress { quoted_addr } ==> r@ == "Invalid address "@
                + quoted_addr@
            &&& e is NoCandidates ==> r@ == "No SMTP connection candidates provided"@
            &&& e matches SmtpError::Unreachable(cause) ==> r@ == cause@
            &&& e is NoServer ==> r@ == "Failed to connect to any SMTP server"@
            &&& e matches SmtpError::ConnectionFailure(cause) ==> r@ == "SMTP connection failure: "@
                + cause@
            &&& e matches SmtpError::MdnConnectionFailure(cause) ==> r@
                == "SMTP connection failure while preparing to send MDNs: "@ + cause@
            &&& e is NoFrom ==> r@ == "No From address available, likely not connected"@
            &&& e is NoMdnFrom ==> r@ == "No From address, not connected"@
            &&& e is NotConnected ==> r@ == "Not connected"@
            &&& e is TooManyRecipients ==> r@ == "Too many SMTP recipients"@
            &&& e matches SmtpError::Unreadable(cause) ==> r@ == cause@
            &&& e is Retry ==> r@ == "Retry"@
            &&& e matches SmtpError::Refused(reason) ==> r@ == reason@
            &&& e is ContactBlocked ==> r@ == "Contact is blocked"@
            &&& e is MdnRetry ==> r@ == "Temporary error while sending an MDN"@
            &&& e matches SmtpError::MdnFailed(reason) ==> r@ == reason@
        },
{
}

// ---------------------------------------------------------------------------
// Addresses and recipients
// ---------------------------------------------------------------------------

/// Exactly the valid addresses of a list are kept.
pub proof fn law_keeping_valid_addresses(list: Vec<String>, r: Vec<String>, a: Seq<char>)
    ensures
        call_ensures(address::keep_valid, (&list,), r) ==> {
            &&& text::texts(r@).contains(a) <==> text::texts(list@).contains(a)
                && address::valid_address(a)
            &&& text::texts(r@) == address::valid_addresses(text::texts(list@))
        },
{
    address::law_valid_addresses_are_kept(text::texts(list@), Seq::empty(), a);
}

/// Own addresses are added after the recipients, the one that is sent from last; the others only
/// if the message is encrypted.
pub proof fn law_adding_own_addresses(
    encrypted: bool,
    own: Vec<String>,
    from: String,
    a: Seq<char>,
)
    ensures
        forall|list: &mut Vec<String>, r: ()| #[trigger]
            call_ensures(delivery::add_self_recipients, (list, encrypted, &own, from), r) ==> {
                let before = text::texts((*list)@);
                let after = text::texts((*final(list))@);
                &&& before.is_prefix_of(after)
                &&& after.len() > before.len()
                &&& after.last() == from@
                &&& after.contains(a) <==> before.contains(a) || a == from@ || (encrypted
                    && text::texts(own@).contains(a))
                &&& !encrypted ==> after == before.push(from@)
            },
{
    let copies = delivery::self_recipients(text::texts(own@), encrypted, from@);
    delivery::law_own_copies(text::texts(own@), Seq::empty(), encrypted, from@, a);
    delivery::law_sender_comes_last(text::texts(own@), from@);
    assert forall|list: &mut Vec<String>, r: ()| #[trigger]
        call_ensures(delivery::add_self_recipients, (list, encrypted, &own, from), r) implies {
        let before = text::texts((*list)@);
        let after = text::texts((*final(list))@);
        &&& before.is_prefix_of(after)
        &&& after.len() > before.len()
        &&& after.last() == from@
        &&& after.contains(a) <==> before.contains(a) || a == from@ || (encrypted && text::texts(
            own@,
        ).contains(a))
        &&& !encrypted ==> after == before.push(from@)
    } by {
        let before = text::texts((*list)@);
        let after = text::texts((*final(list))@);
        assert(after =~= before + copies);
        assert(after.subrange(0, before.len() as int) =~= before);
        if before.contains(a) {
            assert(after[before.index_of(a)] == a);
        }
        if copies.contains(a) {
            assert(after[before.len() + copies.index_of(a)] == a);
        }
        if after.contains(a) {
            let k = after.index_of(a);
            if k < before.len() {
                assert(before[k] == a);
            } else {
                assert(copies[k - before.len()] == a);
            }
        }
    }
}

/// What is left of a delivery, and what is stored of it.
pub proof fn law_progress_of_a_delivery(d: Delivery, rest: bool, stored: String, count: usize)
    requires
        d.wf(),
    ensures
        call_ensures(Delivery::has_rest, (&d,), rest) ==> (rest <==> d@.done + d@.in_flight
            < d@.recipients.len()),
        call_ensures(Delivery::sent_to_text, (&d,), stored) ==> stored@ == text::joined(
            text_set::listing(d@.sent_to),
            " "@,
        ),
        call_ensures(Delivery::sent_to_count, (&d,), count) ==> count == d@.sent_to.len(),
{
}

/// The domain of an address is what stands after its first `@`, up to the next one.
pub proof fn law_finding_the_domain(
    addr: String,
    r: String,
    parts: Seq<Seq<char>>,
    plain: Seq<char>,
)
    requires
        parts.len() >= 2,
        forall|i: int| 0 <= i < parts.len() ==> !(#[trigger] parts[i]).contains('@'),
        !plain.contains('@'),
    ensures
        call_ensures(send_job::domain_of, (Some(addr),), r) && addr@ == text::joined(
            parts,
            seq!['@'],
        ) ==> r@ == parts[1],
        call_ensures(send_job::domain_of, (Some(addr),), r) && addr@ == plain ==> r@.len() == 0,
        call_ensures(send_job::domain_of, (None,), r) ==> r@.len() == 0,
{
    send_course::law_domain_of_an_address(parts, plain);
}

/// A reason says that unencrypted mail is refused if it has the words for that.
pub proof fn law_reading_a_refusal(reason: &str, r: bool)
    ensures
        call_ensures(send_job::is_unencrypted_refusal, (reason,), r) ==> r == text::occurs(
            "invalid unencrypted mail"@,
            reason@,
        ),
{
}

/// The envelope of a key update and the baseline list the relays, each of the former once, the
/// latter in order.
pub proof fn law_listing_the_relays(
    recipients: Vec<KeyupdateRecipient>,
    from: usize,
    to: usize,
    relays: Vec<String>,
    r: String,
)
    requires
        from <= to <= recipients@.len(),
    ensures
        call_ensures(keyupdate::envelope_recipients, (&recipients, from, to), r) ==> r@
            == keyupdate::envelope(recipients@.subrange(from as int, to as int)),
        call_ensures(keyupdate::relays_joined, (relays,), r) ==> r@ == keyupdate::baseline(
            text::texts(relays@),
        ),
{
}

// ---------------------------------------------------------------------------
// Connecting
// ---------------------------------------------------------------------------

/// A fresh connection is none, from nowhere, to nowhere.
pub proof fn law_fresh_connection(smtp: Smtp)
    ensures
        call_ensures(Smtp::new, (), smtp) ==> {
            &&& !smtp.connected
            &&& smtp.from is None
            &&& smtp.transport_id is None
            &&& smtp.last_success is None
            &&& smtp.last_send_error is None
        },
{
}

/// Connecting to the servers of a transport does nothing if there is a connection, fails with an
/// address that is not valid, and else asks when each server was connected to last.
pub proof fn law_connecting_to_servers(
    params: Vec<ConfiguredServerLoginParam>,
    addr: &str,
    r: (ServerJob, ServerAction),
)
    ensures
        forall|s: &mut Smtp| #[trigger]
            call_ensures(Smtp::connect, (s, &params, addr), r) ==> {
                &&& (*final(s)).connected == (*s).connected
                &&& (*final(s)).transport_id == (*s).transport_id
                &&& (*s).connected ==> r.1 == ServerAction::Finish(Ok(()))
                &&& !(*s).connected && !address::valid_address(addr@) ==> (
                r.1 matches ServerAction::Finish(Err(SmtpError::InvalidAddress { quoted_addr }))
                    && quoted_addr@ == text::quoted(addr@))
                &&& !(*s).connected && address::valid_address(addr@) ==> (
                r.1 matches ServerAction::GetStamps(list) && list@ == params@) && (*final(s)).from is Some && (*final(s)).from->0@ == addr@
            },
{
}

/// The times are put into order, the latest first, those without one last.
pub proof fn law_ordering_times(stamps: Vec<Option<i64>>, r: Vec<usize>, j: int, k: int)
    requires
        0 <= j < k < stamps@.len(),
    ensures
        call_ensures(order::order_latest_first, (&stamps,), r) ==> {
            &&& r@.len() == stamps@.len()
            &&& r@[j] < stamps@.len()
            &&& r@[k] < stamps@.len()
            &&& r@[j] != r@[k]
            &&& match (stamps@[r@[j] as int], stamps@[r@[k] as int]) {
                (Some(x), Some(y)) => x > y || (x == y && r@[j] < r@[k]),
                (Some(_), None) => true,
                (None, Some(_)) => false,
                (None, None) => r@[j] < r@[k],
            }
        },
{
    if call_ensures(order::order_latest_first, (&stamps,), r) {
        order::law_latest_comes_first(stamps@, j, k);
        assert(order::ints(r@).len() == r@.len());
        assert(order::ints(r@)[j] == r@[j] as int);
        assert(order::ints(r@)[k] == r@[k] as int);
    }
}

// ---------------------------------------------------------------------------
// Transports and receipts
// ---------------------------------------------------------------------------

/// An empty transport is added as a row with the next identifier, unless the address has one.
pub proof fn law_adding_an_empty_transport(addr: &str, entered: String, timestamp: i64)
    ensures
        forall|s: &mut TransportStore, r: ()| #[trigger]
            call_ensures(TransportStore::add_pseudo_transport, (s, addr, entered, timestamp), r)
                && (*s).wf() && (*s).next_id < u32::MAX ==> {
                let before = (*s)@;
                let after = (*final(s))@;
                &&& before.table.contains_key(addr@) ==> after == before
                &&& !before.table.contains_key(addr@) ==> {
                    &&& after.table.contains_key(addr@)
                    &&& after.table[addr@].id == (*s).next_id
                    &&& after.table[addr@].entered == entered@
                    &&& after.table[addr@].add_timestamp == timestamp
                    &&& after.table[addr@].configured == "{\"addr\":\""@ + addr@
                        + "\",\"imap\":[],\"imap_user\":\"\",\"imap_password\":\"\",\"smtp\":[],\"smtp_user\":\"\",\"smtp_password\":\"\",\"certificate_checks\":\"Automatic\",\"oauth2\":false}"@
                    &&& after.primary == before.primary
                    &&& after.removed == before.removed
                    &&& after.table.remove(addr@) == before.table
                }
            },
{
    assert forall|s: &mut TransportStore, r: ()| #[trigger]
        call_ensures(TransportStore::add_pseudo_transport, (s, addr, entered, timestamp), r) && (
        *s).wf() && (*s).next_id < u32::MAX && !(*s)@.table.contains_key(addr@) implies (*final(s))@.table.remove(addr@) == (*s)@.table by {
        assert((*final(s))@.table.remove(addr@) =~= (*s)@.table);
    }
}

/// Electing a sending address is an error if there is none. One that has a transport stays; else
/// the transport that was added last is elected and reported.
pub proof fn law_electing_a_sending_address(r: Result<Option<String>, TransportError>, k: int)
    ensures
        forall|s: &mut TransportStore| #[trigger]
            call_ensures(TransportStore::maybe_update_sending_transport, (s,), r) && (*s).wf()
                ==> {
                &&& (*final(s)).rows == (*s).rows
                &&& (*final(s)).removed == (*s).removed
                &&& r is Err <==> (*s).configured_addr is None
                &&& r is Err ==> r->Err_0 is NotConfigured
                &&& r is Ok && 0 <= k < (*s).rows@.len() ==> {
                    let table = (*s)@.table;
                    let old_addr = (*s).configured_addr->0@;
                    let new_addr = (*final(s)).configured_addr->0@;
                    let row = (*s).rows@[k];
                    &&& (*final(s)).configured_addr is Some
                    &&& table.contains_key(new_addr)
                    &&& r->Ok_0 is Some <==> !table.contains_key(old_addr)
                    &&& table.contains_key(old_addr) ==> new_addr == old_addr
                    &&& !table.contains_key(old_addr) ==> {
                        &&& (r->Ok_0)->0@ == new_addr
                        &&& row.add_timestamp <= table[new_addr].add_timestamp
                        &&& row.add_timestamp == table[new_addr].add_timestamp ==> row.id
                            <= table[new_addr].id
                    }
                }
            },
{
    assert forall|s: &mut TransportStore| #[trigger]
        call_ensures(TransportStore::maybe_update_sending_transport, (s,), r) && (*s).wf() && r is Ok
            && 0 <= k < (*s).rows@.len() implies {
        let table = (*s)@.table;
        let old_addr = (*s).configured_addr->0@;
        let new_addr = (*final(s)).configured_addr->0@;
        let row = (*s).rows@[k];
        &&& (*final(s)).configured_addr is Some
        &&& table.contains_key(new_addr)
        &&& r->Ok_0 is Some <==> !table.contains_key(old_addr)
        &&& table.contains_key(old_addr) ==> new_addr == old_addr
        &&& !table.contains_key(old_addr) ==> {
            &&& (r->Ok_0)->0@ == new_addr
            &&& row.add_timestamp <= table[new_addr].add_timestamp
            &&& row.add_timestamp == table[new_addr].add_timestamp ==> row.id
                <= table[new_addr].id
        }
    } by {
        transport_load::law_store_is_a_valid_state(*s);
        transport_store::lemma_table_row((*s).rows@, k);
        transport_laws::law_election((*s)@, (*s).rows@[k].addr@);
    }
}

/// A try is counted for exactly the receipts of the message.
pub proof fn law_counting_tries(mid: &str, i: int)
    ensures
        forall|q: &mut MdnQueue, r: ()| #[trigger]
            call_ensures(MdnQueue::count_retry, (q, mid), r) && 0 <= i < (*q)@.len() && (
            *q)@[i].retries < i64::MAX ==> {
                &&& (*final(q))@.len() == (*q)@.len()
                &&& (*final(q))@[i].id == (*q)@[i].id
                &&& (*final(q))@[i].mid == (*q)@[i].mid
                &&& (*final(q))@[i].from_id == (*q)@[i].from_id
                &&& (*final(q))@[i].retries == (*q)@[i].retries + if (*q)@[i].mid == mid@ {
                    1int
                } else {
                    0int
                }
            },
{
    assert forall|q: &mut MdnQueue, r: ()| #[trigger]
        call_ensures(MdnQueue::count_retry, (q, mid), r) && 0 <= i < (*q)@.len() && (
        *q)@[i].retries < i64::MAX implies {
        &&& (*final(q))@.len() == (*q)@.len()
        &&& (*final(q))@[i].id == (*q)@[i].id
        &&& (*final(q))@[i].mid == (*q)@[i].mid
        &&& (*final(q))@[i].from_id == (*q)@[i].from_id
        &&& (*final(q))@[i].retries == (*q)@[i].retries + if (*q)@[i].mid == mid@ {
            1int
        } else {
            0int
        }
    } by {
        mdn_queue::law_counting_a_try((*q)@, mid@, i);
    }
}

// ---------------------------------------------------------------------------
// Objects
// ---------------------------------------------------------------------------

/// A message counts as encrypted unless it says that it is not.
pub proof fn law_telling_encryption(e: Encryption, r: bool)
    ensures
        call_ensures(Encryption::is_encrypted, (&e,), r) ==> (r <==> e is Asymmetric
            || e is Symmetric),
{
}

/// A source of a client keeps its fields.
pub proof fn law_source_keeps_its_fields(source: AppSource, r: JsonrpcAppSource)
    ensures
        call_ensures(JsonrpcAppSource::from_core_type, (source,), r) ==> {
            &&& r.version_integer == source.version_integer
            &&& r.version_string == source.version_string
            &&& r.download_url == source.download_url
        },
{
}

/// A contact keeps its fields; only a path that is Unicode is shown as its image.
pub proof fn law_contact_keeps_its_fields(
    contact: Contact,
    image: ProfileImage,
    e2ee_avail: bool,
    r: ContactObject,
)
    ensures
        call_ensures(ContactObject::try_from_dc_contact, (contact, image, e2ee_avail), r) ==> {
            &&& r.address == contact.addr
            &&& r.color == contact.color
            &&& r.auth_name == contact.authname
            &&& r.status == contact.status
            &&& r.display_name == contact.display_name
            &&& r.id == contact.id
            &&& r.name == contact.name
            &&& r.profile_image is Some <==> image is Path
            &&& image matches ProfileImage::Path(path) ==> r.profile_image == Some(path)
            &&& r.is_blocked == contact.is_blocked
            &&& r.is_key_contact == contact.is_key_contact
            &&& r.e2ee_avail == e2ee_avail
            &&& r.last_seen == contact.last_seen
            &&& r.was_seen_recently == contact.was_seen_recently
            &&& r.is_bot == contact.is_bot
        },
{
}

/// Nothing is done beside queueing a message unless it is asked for.
pub proof fn law_no_side_effects(r: SideEffects)
    ensures
        call_ensures(<SideEffects as Default>::default, (), r) ==> {
            &&& r.last_added_location_timestamp is None
            &&& !r.avatar_is_attached
            &&& r.sync_ids_to_delete is None
        },
{
}

} // verus!
