use vstd::prelude::*;

use crate::address::{
    all_digits, dotted_quad, is_dotted_quad, lemma_decimal_octet, lemma_split_dotted_quad,
    parse_dotted_quad,
};
use crate::text::{
    decimal_text, lemma_split_after_piece, lemma_split_nonempty, lemma_split_without_separator,
    split_on, split_str, texts,
};

verus! {

/// The CIFS mount options for a user: `domain=D,username=U,password=P` when the user
/// is written `D\U`, else `username=U,password=P` with `U` the text before the first
/// backslash (all of it when there is none).
pub open spec fn mount_options_text(username: Seq<char>, password: Seq<char>) -> Seq<char> {
    let user = split_on(username, '\\');
    if user.len() == 2 {
        "domain="@ + user[0] + ",username="@ + user[1] + ",password="@ + password
    } else {
        "username="@ + user[0] + ",password="@ + password
    }
}

/// Builds the CIFS mount options for a user and password.
pub fn mount_options(username: &str, password: &str) -> (options: String)
    ensures
        options@ == mount_options_text(username@, password@),
{
    let user = split_str(username, '\\');
    proof {
        lemma_split_nonempty(username@, '\\');
        assert(texts(user@).len() == user@.len());
    }
    if user.len() == 2 {
        assert(texts(user@)[0] == user@[0]@ && texts(user@)[1] == user@[1]@);
        String::from_str("domain=").concat(user[0].as_str()).concat(",username=").concat(
            user[1].as_str(),
        ).concat(",password=").concat(password)
    } else {
        assert(texts(user@)[0] == user@[0]@);
        String::from_str("username=").concat(user[0].as_str()).concat(",password=").concat(
            password,
        )
    }
}

/// The directory that a share is mounted on: the share's path under the mount target.
pub fn mount_target_path(mount_target: &str, source_path: &str) -> (target: String)
    ensures
        target@ == mount_target@ + "/"@ + source_path@,
{
    String::from_str(mount_target).concat("/").concat(source_path)
}

/// The host of a share path `host/share`: the text before the first slash (all of it
/// when there is none).
pub fn share_host(source_path: &str) -> (host: String)
    ensures
        host@ == split_on(source_path@, '/')[0],
{
    let parts = split_str(source_path, '/');
    proof {
        lemma_split_nonempty(source_path@, '/');
    }
    assert(texts(parts@)[0] == parts@[0]@);
    parts[0].clone()
}

/// Splits a share path `host/share` into the host and the share, the texts before the
/// first and the second slash.
pub fn share_location(source_path: &str) -> (location: (String, String))
    requires
        split_on(source_path@, '/').len() >= 2,
    ensures
        location.0@ == split_on(source_path@, '/')[0],
        location.1@ == split_on(source_path@, '/')[1],
{
    let parts = split_str(source_path, '/');
    assert(texts(parts@)[0] == parts@[0]@ && texts(parts@)[1] == parts@[1]@);
    (parts[0].clone(), parts[1].clone())
}

/// The CIFS source of a share on a host at `address`: `//address/share`.
pub fn mount_source(address: &str, share: &str) -> (source: String)
    ensures
        source@ == "//"@ + address@ + "/"@ + share@,
{
    String::from_str("//").concat(address).concat("/").concat(share)
}

/// Writes an IPv4 address in dot-decimal notation, as `Ipv4Addr`'s `Display` does.
pub fn ipv4_text(a: u8, b: u8, c: u8, d: u8) -> (text: String)
    ensures
        text@ == dotted_quad(a, b, c, d),
{
    proof {
        reveal_strlit(".");
    }
    decimal_text(a).concat(".").concat(decimal_text(b).as_str()).concat(".").concat(
        decimal_text(c).as_str(),
    ).concat(".").concat(decimal_text(d).as_str())
}

/// The pattern by which a host is taken to be written as an IPv4 address.
pub open spec fn ipv4_pattern() -> Seq<char> {
    "\\d+\\.\\d+\\.\\d+\\.\\d+"@
}

/// Four non-empty runs of ASCII digits joined by dots.
pub open spec fn ascii_digit_groups(t: Seq<char>) -> bool {
    let parts = split_on(t, '.');
    &&& parts.len() == 4
    &&& forall|i: int| 0 <= i < 4 ==> #[trigger] parts[i].len() >= 1 && all_digits(parts[i])
}

/// Some stretch of the text is four runs of ASCII digits joined by dots.
pub open spec fn has_ascii_digit_groups(text: Seq<char>) -> bool {
    exists|i: int, j: int|
        0 <= i <= j <= text.len() && ascii_digit_groups(#[trigger] text.subrange(i, j))
}

/// The text consists of ASCII characters only.
pub open spec fn is_ascii_text(text: Seq<char>) -> bool {
    forall|i: int| 0 <= i < text.len() ==> (#[trigger] text[i] as int) < 128
}

/// The address pattern's answer for an ASCII text: whether four runs of digits stand
/// between dots somewhere in it.
pub open spec fn ascii_answer(text: Seq<char>) -> Result<bool, String> {
    Ok(has_ascii_digit_groups(text))
}

/// Whether the regular expression `pattern` matches somewhere in `text`.
pub uninterp spec fn regex_finds(pattern: Seq<char>, text: Seq<char>) -> bool;

/// Compiles `pattern` with the `regex` crate's `Regex::new` and runs `Regex::is_match`
/// on `text`; a pattern that does not compile gives the error's message. The contract
/// names the answer `regex_finds`, and states what the crate's documentation gives for
/// the address pattern: it compiles, and since `\d` matches the ASCII digits and the
/// search is unanchored, it matches wherever four runs of ASCII digits stand between
/// dots; in an ASCII text, where `\d` matches nothing else, exactly there. What it finds
/// among other Unicode digits is not stated.
#[verifier::external_body]
fn regex_is_match(pattern: &str, text: &str) -> (r: Result<bool, String>)
    ensures
        r matches Ok(found) ==> found == regex_finds(pattern@, text@),
        pattern@ == ipv4_pattern() ==> r is Ok,
        pattern@ == ipv4_pattern() && has_ascii_digit_groups(text@) ==> (r matches Ok(true)),
        pattern@ == ipv4_pattern() && is_ascii_text(text@) ==> r == ascii_answer(text@),
{
    regex::Regex::new(pattern).map(|re| re.is_match(text)).map_err(|e| e.to_string())
}

/// A text without dots holds no four runs of digits between dots, so a plain ASCII host
/// name such as `fileserver` is looked up.
pub proof fn lemma_no_dot_no_digit_groups(text: Seq<char>)
    requires
        !text.contains('.'),
    ensures
        !has_ascii_digit_groups(text),
{
    assert forall|i: int, j: int| 0 <= i <= j <= text.len() implies !ascii_digit_groups(
        #[trigger] text.subrange(i, j),
    ) by {
        let sub = text.subrange(i, j);
        if sub.contains('.') {
            let k = choose|k: int| 0 <= k < sub.len() && sub[k] == '.';
            assert(text[i + k] == '.');
        }
        lemma_split_without_separator(sub, '.');
    }
}

/// A dot-decimal address is four runs of ASCII digits joined by dots.
pub proof fn lemma_dotted_quad_digit_groups(text: Seq<char>)
    requires
        is_dotted_quad(text),
    ensures
        has_ascii_digit_groups(text),
{
    let (a, b, c, d) = choose|a: u8, b: u8, c: u8, d: u8| text == #[trigger] dotted_quad(a, b, c, d);
    lemma_split_dotted_quad(a, b, c, d);
    lemma_decimal_octet(a as nat);
    lemma_decimal_octet(b as nat);
    lemma_decimal_octet(c as nat);
    lemma_decimal_octet(d as nat);
    let parts = split_on(text, '.');
    assert forall|i: int| 0 <= i < 4 implies #[trigger] parts[i].len() >= 1 && all_digits(parts[i])
        by {
        assert(i == 0 || i == 1 || i == 2 || i == 3);
    }
    assert(text.subrange(0, text.len() as int) =~= text);
}

/// Where the address of a share's host comes from.
pub enum AddressResolution {
    /// The host is written as this IPv4 address.
    Ipv4(u8, u8, u8, u8),
    /// The host looks like an IPv4 address but is none.
    Invalid,
    /// The host is a name, to be looked up at this `host:port`.
    Lookup(String),
}

/// Decides how a host is resolved, given whether it looks like an IPv4 address: such a
/// host is parsed as one, any other is looked up on the SMB port 445.
pub fn classify_address(address: &str, looks_like_ipv4: bool) -> (r: AddressResolution)
    ensures
        !looks_like_ipv4 ==> (r matches AddressResolution::Lookup(target) && target@ == address@
            + ":445"@),
        looks_like_ipv4 ==> (r is Ipv4 || r is Invalid),
        looks_like_ipv4 ==> (r is Ipv4 <==> is_dotted_quad(address@)),
        r matches AddressResolution::Ipv4(a, b, c, d) ==> address@ == dotted_quad(a, b, c, d),
{
    if looks_like_ipv4 {
        match parse_dotted_quad(address) {
            Some((a, b, c, d)) => AddressResolution::Ipv4(a, b, c, d),
            None => AddressResolution::Invalid,
        }
    } else {
        AddressResolution::Lookup(String::from_str(address).concat(":445"))
    }
}

/// Decides how the host of a share is resolved: a host in which `\d+\.\d+\.\d+\.\d+`
/// matches is parsed as an IPv4 address, any other is looked up on port 445.
pub fn resolve_address_if_domain(address: &str) -> (r: AddressResolution)
    ensures
        !regex_finds(ipv4_pattern(), address@) ==> (r matches AddressResolution::Lookup(target)
            && target@ == address@ + ":445"@),
        regex_finds(ipv4_pattern(), address@) ==> (r is Ipv4 || r is Invalid),
        regex_finds(ipv4_pattern(), address@) ==> (r is Ipv4 <==> is_dotted_quad(address@)),
        has_ascii_digit_groups(address@) ==> (r is Ipv4 || r is Invalid),
        is_ascii_text(address@) && !has_ascii_digit_groups(address@) ==> (r matches AddressResolution::Lookup(target)
            && target@ == address@ + ":445"@),
        is_dotted_quad(address@) ==> r is Ipv4,
        r matches AddressResolution::Ipv4(a, b, c, d) ==> address@ == dotted_quad(a, b, c, d),
{
    proof {
        if is_dotted_quad(address@) {
            lemma_dotted_quad_digit_groups(address@);
        }
    }
    let looks_like_ipv4 = match regex_is_match("\\d+\\.\\d+\\.\\d+\\.\\d+", address) {
        Ok(found) => found,
        Err(_) => false,
    };
    classify_address(address, looks_like_ipv4)
}

/// An address that a host name was resolved to.
#[derive(Clone, Copy, Debug, PartialEq, Eq, Structural)]
pub enum HostAddress {
    V4(u8, u8, u8, u8),
    V6,
}

/// The first IPv4 address among resolved addresses.
pub open spec fn first_v4(addresses: Seq<HostAddress>) -> Option<(u8, u8, u8, u8)>
    decreases addresses.len(),
{
    if addresses.len() == 0 {
        None
    } else {
        match addresses[0] {
            HostAddress::V4(a, b, c, d) => Some((a, b, c, d)),
            HostAddress::V6 => first_v4(addresses.drop_first()),
        }
    }
}

/// Picks the first IPv4 address that a host name was resolved to, or fails with
/// "No IPv4 found".
pub fn first_ipv4(addresses: &Vec<HostAddress>) -> (r: Result<(u8, u8, u8, u8), String>)
    ensures
        match first_v4(addresses@) {
            Some(octets) => r == Ok::<(u8, u8, u8, u8), String>(octets),
            None => r matches Err(message) && message@ == "No IPv4 found"@,
        },
{
    let mut i: usize = 0;
    assert(addresses@.skip(0) =~= addresses@);
    while i < addresses.len()
        invariant
            i <= addresses.len(),
            first_v4(addresses@) == first_v4(addresses@.skip(i as int)),
        decreases addresses.len() - i,
    {
        assert(addresses@.skip(i as int)[0] == addresses@[i as int]);
        assert(addresses@.skip(i as int).drop_first() =~= addresses@.skip(i + 1));
        match addresses[i] {
            HostAddress::V4(a, b, c, d) => {
                return Ok((a, b, c, d));
            },
            HostAddress::V6 => {},
        }
        i += 1;
    }
    assert(addresses@.skip(i as int) =~= Seq::<HostAddress>::empty());
    Err(String::from_str("No IPv4 found"))
}

} // verus!

verus! {

/// The address taken from a lookup is the earliest IPv4 address: when the address at
/// `k` is IPv4 and all before it are IPv6, it is the one.
pub proof fn lemma_first_ipv4_is_earliest(addresses: Seq<HostAddress>, k: int)
    requires
        0 <= k < addresses.len(),
        addresses[k] is V4,
        forall|j: int| 0 <= j < k ==> #[trigger] addresses[j] == HostAddress::V6,
    ensures
        addresses[k] matches HostAddress::V4(a, b, c, d) && first_v4(addresses) == Some((a, b, c, d)),
    decreases k,
{
    if k > 0 {
        assert(addresses[0] == HostAddress::V6);
        let rest = addresses.drop_first();
        assert forall|j: int| 0 <= j < k - 1 implies #[trigger] rest[j] == HostAddress::V6 by {
            assert(rest[j] == addresses[j + 1]);
        }
        assert(rest[k - 1] == addresses[k]);
        lemma_first_ipv4_is_earliest(rest, k - 1);
    }
}

/// A lookup gives no address only when every address is IPv6, and any address it gives
/// is one of the IPv4 addresses found.
pub proof fn lemma_first_ipv4_none_only_without_ipv4(addresses: Seq<HostAddress>)
    ensures
        first_v4(addresses) is None <==> forall|j: int|
            0 <= j < addresses.len() ==> #[trigger] addresses[j] == HostAddress::V6,
        first_v4(addresses) matches Some((a, b, c, d)) ==> addresses.contains(
            HostAddress::V4(a, b, c, d),
        ),
    decreases addresses.len(),
{
    if addresses.len() > 0 {
        let rest = addresses.drop_first();
        lemma_first_ipv4_none_only_without_ipv4(rest);
        if addresses[0] == HostAddress::V6 {
            if first_v4(rest) is None {
                assert forall|j: int| 0 <= j < addresses.len() implies #[trigger] addresses[j]
                    == HostAddress::V6 by {
                    if j > 0 {
                        assert(addresses[j] == rest[j - 1]);
                    }
                }
            } else {
                let k = choose|k: int| 0 <= k < rest.len() && !(rest[k] == HostAddress::V6);
                assert(!(addresses[k + 1] == HostAddress::V6));
            }
            if let Some((a, b, c, d)) = first_v4(addresses) {
                let k = choose|k: int| 0 <= k < rest.len() && rest[k] == HostAddress::V4(a, b, c, d);
                assert(addresses[k + 1] == HostAddress::V4(a, b, c, d));
            }
        } else {
            assert(addresses[0] is V4);
            assert(!(addresses[0] == HostAddress::V6));
        }
    }
}

} // verus!

verus! {

/// A user written `domain\user` gets the domain option, a user written without a
/// backslash only the username option; the password comes last either way.
pub proof fn lemma_mount_options_forms(domain: Seq<char>, user: Seq<char>, password: Seq<char>)
    requires
        !domain.contains('\\'),
        !user.contains('\\'),
    ensures
        mount_options_text(domain.push('\\') + user, password) == "domain="@ + domain
            + ",username="@ + user + ",password="@ + password,
        mount_options_text(user, password) == "username="@ + user + ",password="@ + password,
{
    lemma_split_without_separator(user, '\\');
    lemma_split_after_piece(domain, user, '\\');
    assert(seq![domain] + seq![user] =~= seq![domain, user]);
}

} // verus!
