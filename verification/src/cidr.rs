//! Who may reach SSH: an IPv4 range, or the caller's own address.

use vstd::prelude::*;

use crate::number;
use crate::number::{decimal, read_number};
use crate::text;
use crate::text::{equal_ignoring_case, halves, pieces, res_text, texts, trimmed};

verus! {

/// Whether a text is an IPv4 address in dotted-quad notation.
pub open spec fn is_dotted_quad(addr: Seq<char>) -> bool {
    let octets = pieces(addr, '.');
    octets.len() == 4 && forall|i: int|
        0 <= i < 4 ==> read_number(#[trigger] octets[i], u8::MAX as nat) is Some
}

/// What a range reads as: itself without white space around it, or the word `self`.
pub open spec fn cidr_of(value: Seq<char>) -> Result<Seq<char>, Seq<char>> {
    let range = trimmed(value);
    if equal_ignoring_case(range, "self"@) {
        Ok("self"@)
    } else {
        match halves(range, '/') {
            None => Err(
                "`"@ + range + "` is not a CIDR -- it needs a prefix length, e.g. `"@ + range
                    + "/32`"@,
            ),
            Some((addr, prefix)) => if !is_dotted_quad(addr) {
                Err("`"@ + addr + "` is not a dotted-quad IPv4 address in `"@ + range + "`"@)
            } else if read_number(prefix, 32) is None {
                Err(
                    "`"@ + prefix + "` is not a prefix length between 0 and 32 in `"@ + range
                        + "`"@,
                )
            } else {
                Ok(range)
            },
        }
    }
}

fn dotted_quad(addr: &[char]) -> (b: bool)
    ensures
        b == is_dotted_quad(addr@),
{
    let octets = text::split(addr, '.');
    if octets.len() != 4 {
        return false;
    }
    let ghost all = texts(octets@);
    let mut i: usize = 0;
    while i < 4
        invariant
            i <= 4,
            octets@.len() == 4,
            all == texts(octets@),
            all == pieces(addr@, '.'),
            forall|j: int| 0 <= j < i ==> read_number(#[trigger] all[j], u8::MAX as nat) is Some,
        decreases 4 - i,
    {
        assert(all[i as int] == octets@[i as int]@);
        if number::parse(octets[i], 255).is_none() {
            return false;
        }
        i += 1;
    }
    true
}

/// The complaint about one part of a range.
fn complaint(part: &[char], what: &str, range: &[char]) -> (e: String)
    ensures
        e@ == "`"@ + part@ + what@ + range@ + "`"@,
{
    let mut e = "`".to_owned();
    e.append(text::string(part).as_str());
    e.append(what);
    e.append(text::string(range).as_str());
    e.append("`");
    e
}

/// Validates a range. The word `self`, in any case, stands for the caller's own address, which is
/// looked up only when an instance is provisioned.
pub fn parse_cidr(value: &str) -> (r: Result<String, String>)
    ensures
        res_text(r) == cidr_of(value@),
{
    let cs = text::chars(value);
    let range = text::trim(cs.as_slice());
    if text::is_ignoring_case(range, "self") {
        return Ok("self".to_owned());
    }
    let (addr, prefix) = match text::split_once(range, '/') {
        Some((addr, prefix)) => (addr, prefix),
        None => {
            let mut e = "`".to_owned();
            e.append(text::string(range).as_str());
            e.append("` is not a CIDR -- it needs a prefix length, e.g. `");
            e.append(text::string(range).as_str());
            e.append("/32`");
            return Err(e);
        },
    };
    if !dotted_quad(addr) {
        return Err(complaint(addr, "` is not a dotted-quad IPv4 address in `", range));
    }
    if number::parse(prefix, 32).is_none() {
        return Err(complaint(prefix, "` is not a prefix length between 0 and 32 in `", range));
    }
    Ok(text::string(range))
}

/// How the range for SSH is come by.
#[derive(Debug)]
pub enum SshCidr {
    /// It is given.
    Given(String),
    /// It is the caller's own address, which has to be asked for.
    OwnAddress,
}

/// Decides whether the caller's own address has to be asked for.
pub fn ssh_cidr(value: &str) -> (r: SshCidr)
    ensures
        match r {
            SshCidr::Given(range) => !equal_ignoring_case(value@, "self"@) && range@ == value@,
            SshCidr::OwnAddress => equal_ignoring_case(value@, "self"@),
        },
{
    let cs = text::chars(value);
    if text::is_ignoring_case(cs.as_slice(), "self") {
        SshCidr::OwnAddress
    } else {
        SshCidr::Given(value.to_owned())
    }
}

/// The range that holds nothing but the address in a reply.
pub open spec fn own_range(body: Seq<char>) -> Result<Seq<char>, Seq<char>> {
    let range = trimmed(body) + "/32"@;
    match cidr_of(range) {
        Ok(_) => Ok(range),
        Err(e) => Err("checkip.amazonaws.com did not return an address: "@ + e),
    }
}

/// The range for SSH from the reply of the service that tells the caller's address.
pub fn own_cidr(body: &str) -> (r: Result<String, String>)
    ensures
        res_text(r) == own_range(body@),
{
    let cs = text::chars(body);
    let mut range = text::string(text::trim(cs.as_slice()));
    range.append("/32");
    match parse_cidr(range.as_str()) {
        Ok(_) => Ok(range),
        Err(e) => {
            let mut message = "checkip.amazonaws.com did not return an address: ".to_owned();
            message.append(e.as_str());
            Err(message)
        },
    }
}

/// Validation settles a range: what it gives is valid and stays as it is.
pub proof fn cidr_is_settled(value: Seq<char>)
    ensures
        match cidr_of(value) {
            Ok(range) => cidr_of(range) == Ok::<Seq<char>, Seq<char>>(range),
            Err(_) => true,
        },
{
    text::lemma_trimmed_twice(value);
    reveal_strlit("self");
    assert(trimmed("self"@) == "self"@);
}

/// The range from a reply is valid as it stands, and holds one address.
pub proof fn own_range_is_valid(body: Seq<char>)
    ensures
        match own_range(body) {
            Ok(range) => cidr_of(range) == Ok::<Seq<char>, Seq<char>>(range)
                && "/32"@.is_suffix_of(range),
            Err(_) => true,
        },
{
    let addr = trimmed(body);
    let range = addr + "/32"@;
    reveal_strlit("/32");
    reveal_strlit("self");
    assert("/32"@ =~= range.subrange(range.len() - 3, range.len() as int));
    if addr.len() > 0 {
        text::lemma_trimmed_ends(body);
        assert(range[0] == addr[0]);
        assert(range.last() == '2');
        assert(trimmed(range) == range);
        if equal_ignoring_case(range, "self"@) {
            assert(text::ascii_lower(range[range.len() - 1]) == text::ascii_lower("self"@[3]));
        }
    } else {
        assert(range =~= "/32"@);
        assert(trimmed(range) == range);
        text::lemma_is_first_index(range, '/', 0);
        let none = range.take(0);
        assert(none =~= Seq::<char>::empty());
        text::lemma_is_first_index(none, '.', 0);
        assert(pieces(none, '.').len() == 1);
        assert(!equal_ignoring_case(range, "self"@));
    }
}

/// The shown form of a number has neither a dot, nor a slash, nor white space at its ends.
proof fn lemma_octet(n: nat)
    ensures
        decimal(n).len() > 0,
        text::free_of(decimal(n), '.'),
        text::free_of(decimal(n), '/'),
        number::is_digit(decimal(n)[0]),
        number::is_digit(decimal(n).last()),
{
    number::decimal_denotes(n);
    assert(number::is_digit(decimal(n)[0]));
    assert(number::is_digit(decimal(n)[decimal(n).len() - 1]));
    assert forall|i: int| 0 <= i < decimal(n).len() implies #[trigger] decimal(n)[i] != '.' by {
        assert(number::is_digit(decimal(n)[i]));
    }
    assert forall|i: int| 0 <= i < decimal(n).len() implies #[trigger] decimal(n)[i] != '/' by {
        assert(number::is_digit(decimal(n)[i]));
    }
}

/// The address of four octets.
pub open spec fn quad(a: nat, b: nat, c: nat, d: nat) -> Seq<char> {
    decimal(a) + seq!['.'] + (decimal(b) + seq!['.'] + (decimal(c) + seq!['.'] + decimal(d)))
}

proof fn lemma_quad(a: nat, b: nat, c: nat, d: nat)
    ensures
        is_dotted_quad(quad(a, b, c, d)) <==> a <= 255 && b <= 255 && c <= 255 && d <= 255,
        text::free_of(quad(a, b, c, d), '/'),
        quad(a, b, c, d).len() > 0,
        quad(a, b, c, d)[0] == decimal(a)[0],
{
    let max = u8::MAX as nat;
    lemma_octet(a);
    lemma_octet(b);
    lemma_octet(c);
    lemma_octet(d);
    let cd = decimal(c) + seq!['.'] + decimal(d);
    let bcd = decimal(b) + seq!['.'] + cd;
    text::first_piece_is_split_off(decimal(a), '.', bcd);
    text::first_piece_is_split_off(decimal(b), '.', cd);
    text::first_piece_is_split_off(decimal(c), '.', decimal(d));
    text::first_piece_is_split_off(decimal(d), '.', decimal(d));
    let octets = pieces(quad(a, b, c, d), '.');
    assert(octets =~= seq![decimal(a), decimal(b), decimal(c), decimal(d)]);
    lemma_octet_read(a);
    lemma_octet_read(b);
    lemma_octet_read(c);
    lemma_octet_read(d);
    if is_dotted_quad(quad(a, b, c, d)) {
        assert(read_number(octets[0], max) is Some && read_number(octets[1], max) is Some);
        assert(read_number(octets[2], max) is Some && read_number(octets[3], max) is Some);
    }
    lemma_no_slash(decimal(c), decimal(d));
    lemma_no_slash(decimal(b), cd);
    lemma_no_slash(decimal(a), bcd);
}

proof fn lemma_octet_read(n: nat)
    ensures
        read_number(decimal(n), u8::MAX as nat) is Some <==> n <= 255,
{
    if n <= 255 {
        number::decimal_reads_back(n, u8::MAX as nat);
    } else {
        number::numbers_are_digits_within_bounds(decimal(n), n, u8::MAX as nat);
    }
}

proof fn lemma_no_slash(a: Seq<char>, b: Seq<char>)
    requires
        text::free_of(a, '/'),
        text::free_of(b, '/'),
    ensures
        text::free_of(a + seq!['.'] + b, '/'),
{
    let s = a + seq!['.'] + b;
    assert forall|i: int| 0 <= i < s.len() implies #[trigger] s[i] != '/' by {
        if i < a.len() {
            assert(s[i] == a[i]);
        } else if i > a.len() {
            assert(s[i] == b[i - a.len() - 1]);
        }
    }
}

/// A range of four octets and a prefix length is accepted, as it is, exactly where no octet is beyond
/// 255 and the prefix not beyond 32. An address without a prefix length is refused.
pub proof fn ranges_are_octets_and_a_prefix(a: nat, b: nat, c: nat, d: nat, bits: nat)
    ensures
        ({
            let range = quad(a, b, c, d) + seq!['/'] + decimal(bits);
            if a <= 255 && b <= 255 && c <= 255 && d <= 255 && bits <= 32 {
                cidr_of(range) == Ok::<Seq<char>, Seq<char>>(range)
            } else {
                cidr_of(range) is Err
            }
        }),
        cidr_of(quad(a, b, c, d)) is Err,
{
    let addr = quad(a, b, c, d);
    let range = addr + seq!['/'] + decimal(bits);
    lemma_quad(a, b, c, d);
    lemma_octet(a);
    lemma_octet(d);
    lemma_octet(bits);
    assert(range[0] == addr[0]);
    assert(range.last() == decimal(bits).last());
    text::lemma_trimmed_already(range);
    assert(addr.last() == decimal(d).last());
    text::lemma_trimmed_already(addr);
    text::first_piece_is_split_off(addr, '/', decimal(bits));
    text::lemma_is_first_index(addr, '/', addr.len() as int);
    reveal_strlit("self");
    if equal_ignoring_case(range, "self"@) {
        assert(text::ascii_lower(range[0]) == text::ascii_lower("self"@[0]));
    }
    if equal_ignoring_case(addr, "self"@) {
        assert(text::ascii_lower(addr[0]) == text::ascii_lower("self"@[0]));
    }
    if bits <= 32 {
        number::decimal_reads_back(bits, 32);
    } else {
        number::numbers_are_digits_within_bounds(decimal(bits), bits, 32);
    }
}

/// The caller's own address is meant by the four letters of `self` alone, each in either case, and what
/// is read is the word in small letters, whatever white space stands around it.
pub proof fn own_address_is_the_word_self(value: Seq<char>)
    ensures
        ({
            let word = trimmed(value);
            let is_self = word.len() == 4 && (word[0] == 's' || word[0] == 'S') && (word[1] == 'e'
                || word[1] == 'E') && (word[2] == 'l' || word[2] == 'L') && (word[3] == 'f'
                || word[3] == 'F');
            &&& equal_ignoring_case(word, "self"@) <==> is_self
            &&& is_self ==> cidr_of(value) == Ok::<Seq<char>, Seq<char>>("self"@)
        }),
{
    let word = trimmed(value);
    reveal_strlit("self");
    if equal_ignoring_case(word, "self"@) {
        assert(text::ascii_lower(word[0]) == text::ascii_lower("self"@[0]));
        assert(text::ascii_lower(word[1]) == text::ascii_lower("self"@[1]));
        assert(text::ascii_lower(word[2]) == text::ascii_lower("self"@[2]));
        assert(text::ascii_lower(word[3]) == text::ascii_lower("self"@[3]));
    }
}

/// The range that holds nothing but the caller's own address is that address with the longest prefix,
/// whatever white space stands around it in the reply; a reply that is no address is refused.
pub proof fn own_range_is_the_address_alone(body: Seq<char>, a: nat, b: nat, c: nat, d: nat)
    requires
        trimmed(body) == quad(a, b, c, d),
    ensures
        if a <= 255 && b <= 255 && c <= 255 && d <= 255 {
            own_range(body) == Ok::<Seq<char>, Seq<char>>(quad(a, b, c, d) + "/32"@)
        } else {
            own_range(body) is Err
        },
{
    reveal_strlit("/32");
    reveal_with_fuel(decimal, 2);
    assert(decimal(32) =~= seq!['3', '2']);
    assert("/32"@ =~= seq!['/'] + decimal(32));
    assert(quad(a, b, c, d) + "/32"@ =~= quad(a, b, c, d) + seq!['/'] + decimal(32));
    ranges_are_octets_and_a_prefix(a, b, c, d, 32);
}

} // verus!
