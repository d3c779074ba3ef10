//! Text as a sequence of characters: joining, splitting, trimming, ordering.

use vstd::prelude::*;
use vstd::relations::{sorted_by, total_ordering};

verus! {

/// The characters of each string of a list.
pub open spec fn texts(list: Seq<String>) -> Seq<Seq<char>> {
    list.map_values(|s: String| s@)
}

/// `String::push` appends one character.
pub assume_specification[ String::push ](s: &mut String, c: char)
    ensures
        final(s)@ == old(s)@.push(c),
;

/// The characters of `s`, in order.
pub fn chars_of(s: &str) -> (r: Vec<char>)
    ensures
        r@ == s@,
{
    let mut r: Vec<char> = Vec::new();
    for c in it: s.chars()
        invariant
            it.seq() == s@,
            r@ == s@.take(it.index()),
    {
        r.push(c);
        assert(s@.take(it.index() + 1) =~= s@.take(it.index()).push(s@[it.index()]));
    }
    assert(s@.take(s@.len() as int) =~= s@);
    r
}

/// The text that `chars[from..to]` spells.
pub fn string_of(chars: &Vec<char>, from: usize, to: usize) -> (r: String)
    requires
        from <= to <= chars@.len(),
    ensures
        r@ == chars@.subrange(from as int, to as int),
{
    let mut r = String::new();
    for i in from..to
        invariant
            from <= to <= chars@.len(),
            r@ == chars@.subrange(from as int, i as int),
    {
        r.push(chars[i]);
        assert(chars@.subrange(from as int, i + 1) =~= chars@.subrange(from as int, i as int).push(
            chars@[i as int],
        ));
    }
    r
}

/// Whether two texts are equal.
pub fn same_text(a: &str, b: &str) -> (r: bool)
    ensures
        r == (a@ == b@),
{
    a.to_owned() == b.to_owned()
}

/// Whether some string of `list` spells `s`.
pub fn contains_text(list: &Vec<String>, s: &str) -> (r: bool)
    ensures
        r == texts(list@).contains(s@),
{
    for i in 0..list.len()
        invariant
            forall|j: int| 0 <= j < i ==> texts(list@)[j] != s@,
    {
        if same_text(list[i].as_str(), s) {
            assert(texts(list@)[i as int] == s@);
            return true;
        }
    }
    false
}

// ---------------------------------------------------------------------------
// Joining and splitting
// ---------------------------------------------------------------------------

/// The parts, one after the other, with `sep` between each two neighbours.
pub open spec fn joined(parts: Seq<Seq<char>>, sep: Seq<char>) -> Seq<char>
    decreases parts.len(),
{
    if parts.len() == 0 {
        Seq::empty()
    } else if parts.len() == 1 {
        parts[0]
    } else {
        joined(parts.drop_last(), sep) + sep + parts.last()
    }
}

/// The pieces of `s` between the occurrences of `sep`: one more than there are occurrences.
pub open spec fn pieces(s: Seq<char>, sep: char) -> Seq<Seq<char>>
    decreases s.len(),
{
    if s.len() == 0 {
        seq![Seq::empty()]
    } else {
        let before = pieces(s.drop_last(), sep);
        if s.last() == sep {
            before.push(Seq::empty())
        } else {
            before.update(before.len() - 1, before.last().push(s.last()))
        }
    }
}

/// Joins the strings of `list` with `sep` between them.
pub fn join(list: &Vec<String>, sep: &str) -> (r: String)
    ensures
        r@ == joined(texts(list@), sep@),
{
    let mut r = String::new();
    for i in 0..list.len()
        invariant
            r@ == joined(texts(list@).take(i as int), sep@),
    {
        if i > 0 {
            r.append(sep);
        }
        r.append(list[i].as_str());
        proof {
            let upto = texts(list@).take(i + 1);
            assert(upto.drop_last() =~= texts(list@).take(i as int));
            assert(upto.last() == list@[i as int]@);
            if i == 0 {
                assert(r@ =~= list@[0]@);
            } else {
                assert(r@ =~= joined(upto.drop_last(), sep@) + sep@ + upto.last());
            }
        }
    }
    assert(texts(list@).take(list@.len() as int) =~= texts(list@));
    r
}

/// Splits `s` at every occurrence of `sep`.
pub fn split(s: &str, sep: char) -> (r: Vec<String>)
    ensures
        texts(r@) == pieces(s@, sep),
{
    let chars = chars_of(s);
    let mut parts: Vec<String> = Vec::new();
    let mut current = String::new();
    for i in 0..chars.len()
        invariant
            chars@ == s@,
            texts(parts@).push(current@) == pieces(s@.take(i as int), sep),
    {
        let c = chars[i];
        proof {
            let upto = s@.take(i + 1);
            assert(upto.drop_last() =~= s@.take(i as int));
            assert(upto.last() == c);
        }
        if c == sep {
            let ghost before = texts(parts@).push(current@);
            parts.push(current);
            assert(texts(parts@) =~= before);
            current = String::new();
        } else {
            let ghost before = texts(parts@).push(current@);
            current.push(c);
            assert(texts(parts@).push(current@) =~= before.update(
                before.len() - 1,
                before.last().push(c),
            ));
        }
    }
    assert(s@.take(s@.len() as int) =~= s@);
    let ghost before = texts(parts@).push(current@);
    parts.push(current);
    assert(texts(parts@) =~= before);
    parts
}

pub proof fn lemma_pieces_nonempty(s: Seq<char>, sep: char)
    ensures
        pieces(s, sep).len() >= 1,
    decreases s.len(),
{
    if s.len() > 0 {
        lemma_pieces_nonempty(s.drop_last(), sep);
    }
}

/// Appending a text without the separator makes the last piece longer, and nothing else.
proof fn lemma_pieces_append(a: Seq<char>, b: Seq<char>, sep: char)
    requires
        !b.contains(sep),
    ensures
        pieces(a + b, sep) == pieces(a, sep).update(
            pieces(a, sep).len() - 1,
            pieces(a, sep).last() + b,
        ),
    decreases b.len(),
{
    lemma_pieces_nonempty(a, sep);
    let p = pieces(a, sep);
    if b.len() == 0 {
        assert(a + b =~= a);
        assert(p.last() + b =~= p.last());
        assert(p.update(p.len() - 1, p.last() + b) =~= p);
    } else {
        assert forall|x: char| b.drop_last().contains(x) implies b.contains(x) by {
            let i = choose|i: int| 0 <= i < b.drop_last().len() && b.drop_last()[i] == x;
            assert(b[i] == x);
        }
        lemma_pieces_append(a, b.drop_last(), sep);
        assert((a + b).drop_last() =~= a + b.drop_last());
        assert((a + b).last() == b.last());
        assert(b[b.len() - 1] == b.last());
        assert(p.last() + b =~= (p.last() + b.drop_last()).push(b.last()));
        assert(pieces(a + b, sep) =~= p.update(p.len() - 1, p.last() + b));
    }
}

/// Splitting what was joined with a one-character separator gives the parts back,
/// as long as there is a part and no part holds the separator.
pub proof fn lemma_split_of_join(parts: Seq<Seq<char>>, sep: char)
    requires
        parts.len() > 0,
        forall|i: int| 0 <= i < parts.len() ==> !(#[trigger] parts[i]).contains(sep),
    ensures
        pieces(joined(parts, seq![sep]), sep) == parts,
    decreases parts.len(),
{
    if parts.len() == 1 {
        let none = Seq::<char>::empty();
        lemma_pieces_append(none, parts[0], sep);
        assert(none + parts[0] =~= parts[0]);
        assert(pieces(parts[0], sep) =~= parts);
    } else {
        let head = joined(parts.drop_last(), seq![sep]);
        assert forall|i: int| 0 <= i < parts.drop_last().len() implies !(
        #[trigger] parts.drop_last()[i]).contains(sep) by {
            assert(parts.drop_last()[i] == parts[i]);
        }
        lemma_split_of_join(parts.drop_last(), sep);
        assert(head + seq![sep] =~= head.push(sep));
        assert(head.push(sep).drop_last() =~= head);
        assert(pieces(head.push(sep), sep) == parts.drop_last().push(Seq::empty()));
        assert(parts.last() == parts[parts.len() - 1]);
        lemma_pieces_append(head + seq![sep], parts.last(), sep);
        assert(Seq::<char>::empty() + parts.last() =~= parts.last());
        assert(pieces(joined(parts, seq![sep]), sep) =~= parts);
    }
}

/// A list as it is stored in one text column: nothing for no entry, else the entries
/// with a space between them.
pub open spec fn stored_list(s: Seq<char>) -> Seq<Seq<char>> {
    if s.len() == 0 {
        Seq::empty()
    } else {
        pieces(s, ' ')
    }
}

/// No piece holds the separator.
pub proof fn lemma_pieces_free(s: Seq<char>, sep: char)
    ensures
        forall|i: int| 0 <= i < pieces(s, sep).len() ==> !(#[trigger] pieces(s, sep)[i]).contains(sep),
    decreases s.len(),
{
    if s.len() > 0 {
        lemma_pieces_free(s.drop_last(), sep);
        lemma_pieces_nonempty(s.drop_last(), sep);
        let before = pieces(s.drop_last(), sep);
        assert forall|i: int| 0 <= i < pieces(s, sep).len() implies !(#[trigger] pieces(
            s,
            sep,
        )[i]).contains(sep) by {
            if s.last() != sep && i == before.len() - 1 {
                let piece = before.last().push(s.last());
                assert(!before[i].contains(sep));
                assert forall|k: int| 0 <= k < piece.len() implies piece[k] != sep by {
                    if k < before.last().len() {
                        assert(piece[k] == before.last()[k]);
                    }
                }
            } else if i < before.len() {
                assert(!before[i].contains(sep));
            }
        }
    }
}

/// Reads a list from its stored form.
pub fn load_list(s: &str) -> (r: Vec<String>)
    ensures
        texts(r@) == stored_list(s@),
{
    if s.is_empty() {
        let r: Vec<String> = Vec::new();
        assert(texts(r@) =~= Seq::empty());
        r
    } else {
        split(s, ' ')
    }
}

/// Whether a list survives being stored: no entry holds a space,
/// and the list is not one single empty entry.
pub open spec fn storable(parts: Seq<Seq<char>>) -> bool {
    &&& forall|i: int| 0 <= i < parts.len() ==> !(#[trigger] parts[i]).contains(' ')
    &&& parts != seq![Seq::<char>::empty()]
}

/// A list that is stored with spaces between its entries is read back unchanged.
pub proof fn lemma_stored_list_round_trip(parts: Seq<Seq<char>>)
    requires
        storable(parts),
    ensures
        stored_list(joined(parts, seq![' '])) == parts,
{
    if parts.len() == 0 {
        assert(parts =~= Seq::empty());
    } else {
        lemma_split_of_join(parts, ' ');
        let s = joined(parts, seq![' ']);
        if s.len() == 0 {
            assert(pieces(s, ' ') == seq![Seq::<char>::empty()]);
            assert(false);
        }
    }
}

// ---------------------------------------------------------------------------
// White space
// ---------------------------------------------------------------------------

/// The characters with the Unicode property `White_Space`.
pub open spec fn white_space(c: char) -> bool {
    let n = c as int;
    ||| 0x9 <= n <= 0xd
    ||| n == 0x20
    ||| n == 0x85
    ||| n == 0xa0
    ||| n == 0x1680
    ||| 0x2000 <= n <= 0x200a
    ||| n == 0x2028
    ||| n == 0x2029
    ||| n == 0x202f
    ||| n == 0x205f
    ||| n == 0x3000
}

/// Whether `c` is white space.
pub fn is_white_space(c: char) -> (r: bool)
    ensures
        r == white_space(c),
{
    let n: u32 = code_point(c);
    (0x9 <= n && n <= 0xd) || n == 0x20 || n == 0x85 || n == 0xa0 || n == 0x1680 || (0x2000 <= n
        && n <= 0x200a) || n == 0x2028 || n == 0x2029 || n == 0x202f || n == 0x205f || n == 0x3000
}

/// `s` without the white space at its two ends.
pub open spec fn trimmed(s: Seq<char>) -> Seq<char>
    decreases s.len(),
{
    if s.len() > 0 && white_space(s.first()) {
        trimmed(s.drop_first())
    } else if s.len() > 0 && white_space(s.last()) {
        trimmed(s.drop_last())
    } else {
        s
    }
}

/// Removes the white space at both ends of `s`.
pub fn trim(s: &str) -> (r: String)
    ensures
        r@ == trimmed(s@),
{
    let chars = chars_of(s);
    let mut from: usize = 0;
    assert(s@.subrange(0, s@.len() as int) =~= s@);
    while from < chars.len() && is_white_space(chars[from])
        invariant
            from <= chars@.len(),
            chars@ == s@,
            trimmed(s@) == trimmed(s@.subrange(from as int, s@.len() as int)),
        decreases chars@.len() - from,
    {
        assert(s@.subrange(from as int, s@.len() as int).drop_first() =~= s@.subrange(
            from + 1,
            s@.len() as int,
        ));
        from = from + 1;
    }
    let mut to: usize = chars.len();
    while from < to && is_white_space(chars[to - 1])
        invariant
            from <= to <= chars@.len(),
            chars@ == s@,
            from < to ==> !white_space(s@[from as int]),
            trimmed(s@) == trimmed(s@.subrange(from as int, to as int)),
        decreases to,
    {
        assert(s@.subrange(from as int, to as int).drop_last() =~= s@.subrange(
            from as int,
            to - 1,
        ));
        assert(to - 1 > from) by {
            if to - 1 == from {
                assert(white_space(s@[from as int]));
            }
        }
        to = to - 1;
    }
    string_of(&chars, from, to)
}

// ---------------------------------------------------------------------------
// Searching
// ---------------------------------------------------------------------------

/// Whether `needle` occurs in `hay`.
pub open spec fn occurs(needle: Seq<char>, hay: Seq<char>) -> bool {
    exists|i: int|
        0 <= i <= hay.len() - needle.len() && #[trigger] hay.subrange(i, i + needle.len())
            == needle
}

/// Whether `needle` occurs in `hay`.
pub fn has_substring(hay: &str, needle: &str) -> (r: bool)
    ensures
        r == occurs(needle@, hay@),
{
    let h = chars_of(hay);
    let n = chars_of(needle);
    if n.len() > h.len() {
        return false;
    }
    let last: usize = h.len() - n.len();
    let mut i: usize = 0;
    loop
        invariant
            h@ == hay@,
            n@ == needle@,
            last == h.len() - n.len(),
            i <= last,
            forall|k: int| 0 <= k < i ==> #[trigger] hay@.subrange(k, k + needle@.len()) != needle@,
        decreases last - i,
    {
        let mut j: usize = 0;
        while j < n.len() && h[i + j] == n[j]
            invariant
                h@ == hay@,
                n@ == needle@,
                last == h.len() - n.len(),
                i <= last,
                j <= n@.len(),
                forall|k: int| 0 <= k < j ==> h@[i + k] == #[trigger] n@[k],
            decreases n@.len() - j,
        {
            j = j + 1;
        }
        if j == n.len() {
            assert(hay@.subrange(i as int, i + needle@.len()) =~= needle@);
            return true;
        }
        assert(hay@.subrange(i as int, i + needle@.len())[j as int] != needle@[j as int]);
        if i == last {
            return false;
        }
        i = i + 1;
    }
}

// ---------------------------------------------------------------------------
// Decimal numbers
// ---------------------------------------------------------------------------

/// The character of a decimal digit.
pub open spec fn digit(d: nat) -> char {
    if d == 0 {
        '0'
    } else if d == 1 {
        '1'
    } else if d == 2 {
        '2'
    } else if d == 3 {
        '3'
    } else if d == 4 {
        '4'
    } else if d == 5 {
        '5'
    } else if d == 6 {
        '6'
    } else if d == 7 {
        '7'
    } else if d == 8 {
        '8'
    } else {
        '9'
    }
}

/// A number in decimal notation, without leading zeros.
pub open spec fn decimal(n: nat) -> Seq<char>
    decreases n,
{
    if n < 10 {
        seq![digit(n)]
    } else {
        decimal(n / 10).push(digit(n % 10))
    }
}

/// Writes `n` in decimal notation.
pub fn decimal_text(n: u64) -> (r: String)
    ensures
        r@ == decimal(n as nat),
    decreases n,
{
    let d: u64 = n % 10;
    let c: char = if d == 0 {
        '0'
    } else if d == 1 {
        '1'
    } else if d == 2 {
        '2'
    } else if d == 3 {
        '3'
    } else if d == 4 {
        '4'
    } else if d == 5 {
        '5'
    } else if d == 6 {
        '6'
    } else if d == 7 {
        '7'
    } else if d == 8 {
        '8'
    } else {
        '9'
    };
    let mut r = if n < 10 {
        String::new()
    } else {
        decimal_text(n / 10)
    };
    r.push(c);
    assert(n < 10 ==> r@ =~= seq![digit(n as nat)]);
    r
}

// ---------------------------------------------------------------------------
// Ordering
// ---------------------------------------------------------------------------

/// Lexicographic order by code point, which is also the order of the UTF-8 bytes.
pub open spec fn text_le(a: Seq<char>, b: Seq<char>) -> bool
    decreases a.len(),
{
    if a.len() == 0 {
        true
    } else if b.len() == 0 {
        false
    } else if a.first() == b.first() {
        text_le(a.drop_first(), b.drop_first())
    } else {
        (a.first() as int) < (b.first() as int)
    }
}

/// `text_le` as a function value.
pub open spec fn text_order() -> spec_fn(Seq<char>, Seq<char>) -> bool {
    |a: Seq<char>, b: Seq<char>| text_le(a, b)
}

proof fn lemma_text_le_reflexive(a: Seq<char>)
    ensures
        text_le(a, a),
    decreases a.len(),
{
    if a.len() > 0 {
        lemma_text_le_reflexive(a.drop_first());
    }
}

proof fn lemma_text_le_antisymmetric(a: Seq<char>, b: Seq<char>)
    requires
        text_le(a, b),
        text_le(b, a),
    ensures
        a == b,
    decreases a.len(),
{
    if a.len() > 0 && b.len() > 0 {
        lemma_text_le_antisymmetric(a.drop_first(), b.drop_first());
        assert(a =~= seq![a.first()] + a.drop_first());
        assert(b =~= seq![b.first()] + b.drop_first());
    } else {
        assert(a =~= b);
    }
}

proof fn lemma_text_le_transitive(a: Seq<char>, b: Seq<char>, c: Seq<char>)
    requires
        text_le(a, b),
        text_le(b, c),
    ensures
        text_le(a, c),
    decreases a.len(),
{
    if a.len() > 0 && b.len() > 0 && c.len() > 0 && a.first() == b.first() && b.first()
        == c.first() {
        lemma_text_le_transitive(a.drop_first(), b.drop_first(), c.drop_first());
    }
}

proof fn lemma_text_le_total(a: Seq<char>, b: Seq<char>)
    ensures
        text_le(a, b) || text_le(b, a),
    decreases a.len(),
{
    if a.len() > 0 && b.len() > 0 {
        lemma_text_le_total(a.drop_first(), b.drop_first());
    }
}

/// The order of texts is total.
pub proof fn lemma_text_order_total()
    ensures
        total_ordering(text_order()),
{
    let r = text_order();
    assert forall|a: Seq<char>| #[trigger] r(a, a) by {
        lemma_text_le_reflexive(a);
    }
    assert forall|a: Seq<char>, b: Seq<char>| #[trigger] r(a, b) && #[trigger] r(b, a) implies a
        == b by {
        lemma_text_le_antisymmetric(a, b);
    }
    assert forall|a: Seq<char>, b: Seq<char>, c: Seq<char>| #[trigger]
        r(a, b) && #[trigger] r(b, c) implies r(a, c) by {
        lemma_text_le_transitive(a, b, c);
    }
    assert forall|a: Seq<char>, b: Seq<char>| #[trigger] r(a, b) || #[trigger] r(b, a) by {
        lemma_text_le_total(a, b);
    }
}

fn code_point(c: char) -> (r: u32)
    ensures
        r == c as int,
{
    c as u32
}

/// Whether `a` comes before `b`, or equals it.
pub fn is_text_le(a: &str, b: &str) -> (r: bool)
    ensures
        r == text_le(a@, b@),
{
    let x = chars_of(a);
    let y = chars_of(b);
    let mut i: usize = 0;
    assert(a@.skip(0) =~= a@);
    assert(b@.skip(0) =~= b@);
    while i < x.len() && i < y.len() && x[i] == y[i]
        invariant
            x@ == a@,
            y@ == b@,
            i <= x@.len(),
            i <= y@.len(),
            text_le(a@, b@) == text_le(a@.skip(i as int), b@.skip(i as int)),
        decreases x@.len() - i,
    {
        assert(a@.skip(i as int).drop_first() =~= a@.skip(i + 1));
        assert(b@.skip(i as int).drop_first() =~= b@.skip(i + 1));
        i = i + 1;
    }
    if i == x.len() {
        true
    } else if i == y.len() {
        false
    } else {
        code_point(x[i]) < code_point(y[i])
    }
}

/// Sorts a list of strings.
pub fn sort_texts(list: &mut Vec<String>)
    ensures
        texts(final(list)@) == texts(old(list)@).sort_by(text_order()),
        final(list)@.to_multiset() == old(list)@.to_multiset(),
{
    let mut sorted: Vec<String> = Vec::new();
    let ghost whole = list@;
    proof {
        lemma_text_order_total();
        assert(texts(sorted@) =~= Seq::<Seq<char>>::empty());
        assert(whole.take(0) =~= Seq::<String>::empty());
        assert(texts(whole).take(0) =~= Seq::<Seq<char>>::empty());
    }
    for i in 0..list.len()
        invariant
            list@ == whole,
            total_ordering(text_order()),
            sorted_by(texts(sorted@), text_order()),
            sorted@.to_multiset() == whole.take(i as int).to_multiset(),
            texts(sorted@).to_multiset() == texts(whole).take(i as int).to_multiset(),
    {
        let item = list[i].clone();
        let mut at: usize = sorted.len();
        while at > 0 && !is_text_le(sorted[at - 1].as_str(), item.as_str())
            invariant
                at <= sorted@.len(),
                forall|k: int|
                    at <= k < sorted@.len() ==> !text_le(#[trigger] sorted@[k]@, item@),
            decreases at,
        {
            at = at - 1;
        }
        let ghost before = sorted@;
        sorted.insert(at, item);
        proof {
            let r = text_order();
            assert(texts(sorted@) =~= texts(before).insert(at as int, item@));
            assert forall|j: int, k: int| 0 <= j < k < texts(sorted@).len() implies r(
                #[trigger] texts(sorted@)[j],
                #[trigger] texts(sorted@)[k],
            ) by {
                if k < at {
                    assert(texts(sorted@)[j] == texts(before)[j]);
                    assert(texts(sorted@)[k] == texts(before)[k]);
                } else if k == at {
                    assert(texts(before)[at - 1] == before[at - 1]@);
                    assert(text_le(before[at - 1]@, item@));
                    if j < at - 1 {
                        assert(r(texts(before)[j], texts(before)[at - 1]));
                        lemma_text_le_transitive(texts(before)[j], before[at - 1]@, item@);
                    }
                } else if j == at {
                    lemma_text_le_total(before[k - 1]@, item@);
                } else if j < at {
                    assert(texts(sorted@)[j] == texts(before)[j]);
                    assert(texts(sorted@)[k] == texts(before)[k - 1]);
                } else {
                    assert(texts(sorted@)[j] == texts(before)[j - 1]);
                    assert(texts(sorted@)[k] == texts(before)[k - 1]);
                }
            }
            before.insert_ensures(at as int, item);
            texts(before).insert_ensures(at as int, item@);
            vstd::seq_lib::to_multiset_insert(before, at as int, item);
            vstd::seq_lib::to_multiset_insert(texts(before), at as int, item@);
            assert(whole.take(i + 1) =~= whole.take(i as int).push(item));
            assert(texts(whole).take(i + 1) =~= texts(whole).take(i as int).push(item@));
            vstd::seq_lib::to_multiset_build(whole.take(i as int), item);
            vstd::seq_lib::to_multiset_build(texts(whole).take(i as int), item@);
        }
    }
    proof {
        assert(whole.take(whole.len() as int) =~= whole);
        assert(texts(whole).take(whole.len() as int) =~= texts(whole));
        texts(whole).lemma_sort_by_ensures(text_order());
        vstd::seq_lib::lemma_sorted_unique(
            texts(sorted@),
            texts(whole).sort_by(text_order()),
            text_order(),
        );
    }
    *list = sorted;
}

// ---------------------------------------------------------------------------
// Forms that the standard library gives a text
// ---------------------------------------------------------------------------

/// What `{:?}` writes for a text: the text in quotes, with escapes.
pub uninterp spec fn quoted(s: Seq<char>) -> Seq<char>;

/// The `Debug` form of a `str` from the standard library. The contract only names the text;
/// it does not say which characters are escaped.
#[verifier::external_body]
pub(crate) fn quoted_text(s: &str) -> (r: String)
    ensures
        r@ == quoted(s@),
{
    format!("{s:?}")
}

/// What `str::to_lowercase` returns for a text.
pub uninterp spec fn lowercase(s: Seq<char>) -> Seq<char>;

/// `str::to_lowercase` of the standard library. The contract only names the text; it does not
/// say to which characters each one is mapped.
#[verifier::external_body]
pub(crate) fn lowercase_text(s: &str) -> (r: String)
    ensures
        r@ == lowercase(s@),
{
    s.to_lowercase()
}

// ---------------------------------------------------------------------------
// Laws
// ---------------------------------------------------------------------------

/// What is joined begins with the first parts and ends with the last ones, with the separator
/// between them; a single part is left as it is.
pub proof fn law_joining(a: Seq<Seq<char>>, b: Seq<Seq<char>>, x: Seq<char>, sep: Seq<char>)
    ensures
        joined(Seq::empty(), sep).len() == 0,
        joined(seq![x], sep) == x,
        a.len() > 0 && b.len() > 0 ==> joined(a + b, sep) == joined(a, sep) + sep + joined(b, sep),
    decreases b.len(),
{
    if a.len() > 0 && b.len() > 0 {
        assert((a + b).drop_last() =~= a + b.drop_last());
        assert((a + b).last() == b.last());
        if b.len() == 1 {
            assert(a + b.drop_last() =~= a);
        } else {
            law_joining(a, b.drop_last(), x, sep);
            assert(joined(a + b, sep) =~= joined(a, sep) + sep + joined(b, sep));
        }
    }
}

/// Joining what was split gives the text back, and no piece holds the separator.
pub proof fn law_splitting(s: Seq<char>, sep: char)
    ensures
        pieces(s, sep).len() >= 1,
        joined(pieces(s, sep), seq![sep]) == s,
        forall|i: int| 0 <= i < pieces(s, sep).len() ==> !(#[trigger] pieces(s, sep)[i]).contains(sep),
    decreases s.len(),
{
    lemma_pieces_nonempty(s, sep);
    lemma_pieces_free(s, sep);
    let p = pieces(s, sep);
    if s.len() == 0 {
        assert(joined(p, seq![sep]) =~= s);
    } else {
        let before = pieces(s.drop_last(), sep);
        law_splitting(s.drop_last(), sep);
        assert(s =~= s.drop_last().push(s.last()));
        if s.last() == sep {
            assert(p.drop_last() =~= before);
            assert(joined(p, seq![sep]) =~= s);
        } else {
            assert(p.drop_last() =~= before.drop_last());
            assert(p.last() == before.last().push(s.last()));
            assert(joined(p, seq![sep]) =~= s);
        }
    }
}

/// Nothing stored is no entry; anything else is split at the spaces.
pub proof fn law_stored_list(s: Seq<char>)
    ensures
        s.len() == 0 ==> stored_list(s).len() == 0,
        s.len() > 0 ==> stored_list(s).len() >= 1 && joined(stored_list(s), seq![' ']) == s,
        forall|i: int| 0 <= i < stored_list(s).len() ==> !(#[trigger] stored_list(s)[i]).contains(' '),
{
    law_splitting(s, ' ');
}

/// Trimming takes all white space from both ends, and nothing else: what stands between white
/// space and neither begins nor ends with it is left.
pub proof fn law_trimming(before: Seq<char>, s: Seq<char>, after: Seq<char>)
    requires
        forall|i: int| 0 <= i < before.len() ==> white_space(#[trigger] before[i]),
        forall|i: int| 0 <= i < after.len() ==> white_space(#[trigger] after[i]),
        s.len() > 0 ==> !white_space(s.first()) && !white_space(s.last()),
    ensures
        trimmed(before + s + after) == s,
    decreases before.len() + after.len(),
{
    let all = before + s + after;
    if before.len() > 0 {
        let rest = before.drop_first();
        assert(all.first() == before[0]);
        assert(all.drop_first() =~= rest + s + after);
        law_trimming(rest, s, after);
    } else if after.len() > 0 {
        let rest = after.drop_last();
        assert(all.last() == after[after.len() - 1]);
        if s.len() > 0 {
            assert(all.first() == s.first());
            assert(all.drop_last() =~= before + s + rest);
            law_trimming(before, s, rest);
        } else {
            assert(all.first() == after[0]);
            assert(all.drop_first() =~= before + s + after.drop_first());
            law_trimming(before, s, after.drop_first());
        }
    } else {
        assert(all =~= s);
    }
}

/// Of the ASCII characters exactly the space and the five control characters from tab to carriage
/// return are white space; beyond them, no letter of an alphabet is.
pub proof fn law_white_space_of_ascii(c: char)
    ensures
        (c as int) < 0x80 ==> (white_space(c) <==> c as int == 0x20 || 0x9 <= c as int <= 0xd),
        0xa1 <= c as int && (c as int) < 0x1680 ==> !white_space(c),
        0x3001 <= c as int ==> !white_space(c),
{
}

/// The number that digits stand for.
pub open spec fn number_of(digits: Seq<char>) -> nat
    decreases digits.len(),
{
    if digits.len() == 0 {
        0
    } else {
        number_of(digits.drop_last()) * 10 + ((digits.last() as int) - ('0' as int)) as nat
    }
}

/// A number in decimal notation stands for the number, and has no leading zero.
pub proof fn law_decimal_is_read_back(n: nat)
    ensures
        number_of(decimal(n)) == n,
        decimal(n).len() >= 1,
        n > 0 ==> decimal(n)[0] != '0',
        forall|i: int|
            0 <= i < decimal(n).len() ==> '0' as int <= (#[trigger] decimal(n)[i]) as int
                <= '9' as int,
    decreases n,
{
    reveal_with_fuel(number_of, 2);
    if n < 10 {
        assert(decimal(n).drop_last() =~= Seq::<char>::empty());
    } else {
        law_decimal_is_read_back(n / 10);
        assert(decimal(n).drop_last() =~= decimal(n / 10));
        assert forall|i: int| 0 <= i < decimal(n).len() implies '0' as int <= (
        #[trigger] decimal(n)[i]) as int <= '9' as int by {
            if i < decimal(n / 10).len() {
                assert(decimal(n)[i] == decimal(n / 10)[i]);
            }
        }
    }
}

/// Texts are ordered by the first character in which they differ; a text comes before its
/// continuations.
pub proof fn law_texts_are_ordered_by_code_points(
    start: Seq<char>,
    x: char,
    y: char,
    a: Seq<char>,
    b: Seq<char>,
)
    ensures
        text_le(start, start + a),
        a.len() > 0 ==> !text_le(start + a, start),
        x != y ==> (text_le(start + seq![x] + a, start + seq![y] + b) <==> (x as int) < (y as int)),
    decreases start.len(),
{
    let p = start + seq![x] + a;
    let q = start + seq![y] + b;
    if start.len() == 0 {
        assert(p.first() == x);
        assert(q.first() == y);
    } else {
        let rest = start.drop_first();
        law_texts_are_ordered_by_code_points(rest, x, y, a, b);
        assert((start + a).drop_first() =~= rest + a);
        assert(p.drop_first() =~= rest + seq![x] + a);
        assert(q.drop_first() =~= rest + seq![y] + b);
    }
}

/// A text occurs in another one exactly if that one consists of something, the text, and
/// something.
pub proof fn law_occurrence(before: Seq<char>, needle: Seq<char>, after: Seq<char>, hay: Seq<char>)
    ensures
        occurs(needle, before + needle + after),
        occurs(needle, hay) ==> exists|i: int|
            0 <= i <= hay.len() - needle.len() && hay == hay.subrange(0, i) + needle
                + #[trigger] hay.subrange(i + needle.len(), hay.len() as int),
{
    let all = before + needle + after;
    let at = before.len() as int;
    assert(all.subrange(at, at + needle.len()) =~= needle);
    if occurs(needle, hay) {
        let i = choose|i: int|
            0 <= i <= hay.len() - needle.len() && #[trigger] hay.subrange(i, i + needle.len())
                == needle;
        assert(hay =~= hay.subrange(0, i) + hay.subrange(i, i + needle.len()) + hay.subrange(
            i + needle.len(),
            hay.len() as int,
        ));
    }
}

} // verus!
