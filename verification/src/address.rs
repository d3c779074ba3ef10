//! Addresses that can be handed to an SMTP server.

use vstd::prelude::*;

use crate::text;

verus! {

/// Whether a character may occur in an address: printable ASCII except for the space and the
/// angle brackets.
pub open spec fn address_char(c: char) -> bool {
    0x21 <= c as int <= 0x7e && c != '<' && c != '>'
}

/// Whether a text can be handed to an SMTP server as an address.
pub open spec fn valid_address(s: Seq<char>) -> bool {
    forall|i: int| 0 <= i < s.len() ==> address_char(#[trigger] s[i])
}

/// `async_smtp::EmailAddress::new` takes a text over unchanged if every character of it is
/// printable ASCII other than the space and the angle brackets, and is an error otherwise.
#[verifier::external_body]
pub(crate) fn smtp_address(addr: String) -> (r: Option<String>)
    ensures
        r is Some == valid_address(addr@),
        r is Some ==> r->0@ == addr@,
{
    match async_smtp::EmailAddress::new(addr) {
        Ok(address) => Some(address.to_string()),
        Err(_) => None,
    }
}

/// The valid addresses of a list.
pub open spec fn valid_addresses(list: Seq<Seq<char>>) -> Seq<Seq<char>> {
    list.filter(|a: Seq<char>| valid_address(a))
}

/// The addresses of `list` that a server accepts, in their order.
pub fn keep_valid(list: &Vec<String>) -> (r: Vec<String>)
    ensures
        text::texts(r@) == valid_addresses(text::texts(list@)),
{
    let mut kept: Vec<String> = Vec::new();
    let ghost all = text::texts(list@);
    let ghost valid = |a: Seq<char>| valid_address(a);
    assert(all.take(0).filter(valid) =~= Seq::<Seq<char>>::empty());
    assert(text::texts(kept@) =~= valid_addresses(all.take(0)));
    for i in 0..list.len()
        invariant
            all == text::texts(list@),
            valid == (|a: Seq<char>| valid_address(a)),
            text::texts(kept@) == valid_addresses(all.take(i as int)),
    {
        proof {
            assert(all.take(i + 1) =~= all.take(i as int).push(all[i as int]));
            all.take(i as int).lemma_filter_push(all[i as int], valid);
        }
        let ghost before = kept@;
        match smtp_address(list[i].clone()) {
            Some(addr) => {
                kept.push(addr);
                assert(text::texts(kept@) =~= text::texts(before).push(all[i as int]));
            },
            None => {},
        }
    }
    assert(all.take(all.len() as int) =~= all);
    kept
}

/// Keeping the valid addresses keeps exactly those, in their order.
pub proof fn law_valid_addresses_are_kept(
    a: Seq<Seq<char>>,
    b: Seq<Seq<char>>,
    x: Seq<char>,
)
    ensures
        valid_addresses(a + b) == valid_addresses(a) + valid_addresses(b),
        valid_addresses(a).contains(x) <==> a.contains(x) && valid_address(x),
        valid_addresses(seq![x]) == if valid_address(x) {
            seq![x]
        } else {
            Seq::empty()
        },
{
    let valid = |y: Seq<char>| valid_address(y);
    Seq::filter_distributes_over_add(a, b, valid);
    crate::order::lemma_filter_members(a, valid, x);
    let none = Seq::<Seq<char>>::empty();
    assert(seq![x] =~= none.push(x));
    none.lemma_filter_push(x, valid);
    assert(none.filter(valid) =~= none);
}

/// Whether an address is valid depends on each of its characters alone, and of those exactly the
/// printable ones of ASCII are allowed that are neither a space nor an angle bracket.
pub proof fn law_characters_of_an_address(a: Seq<char>, b: Seq<char>, c: char)
    ensures
        valid_address(Seq::empty()),
        valid_address(a + b) <==> valid_address(a) && valid_address(b),
        valid_address(seq![c]) <==> 0x20 < c as int && (c as int) < 0x7f && c as int != 0x3c
            && c as int != 0x3e,
{
    if valid_address(a + b) {
        assert forall|i: int| 0 <= i < a.len() implies address_char(#[trigger] a[i]) by {
            assert((a + b)[i] == a[i]);
        }
        assert forall|i: int| 0 <= i < b.len() implies address_char(#[trigger] b[i]) by {
            assert((a + b)[a.len() + i] == b[i]);
        }
    }
    if valid_address(seq![c]) {
        assert(address_char(seq![c][0]));
    }
}

} // verus!
