//! Addresses: where a document is fetched from.

use crate::text::{
    chars_of, copy_range, find, last_index_of, matches_at, occurs_at, search_from, search_last,
    string_from_chars,
};
use vstd::prelude::*;
use vstd::string::StringExecFns;

verus! {

/// The parts of an `http` address.
#[derive(Clone, Debug, PartialEq, Eq)]
pub struct Address {
    pub host: String,
    pub port: String,
    /// The path, with its leading `/`.
    pub path: String,
    /// The fragment with its leading `#`, or nothing.
    pub fragment: String,
}

/// An address as plain values.
pub struct AddressModel {
    pub host: Seq<char>,
    pub port: Seq<char>,
    pub path: Seq<char>,
    pub fragment: Seq<char>,
}

impl View for Address {
    type V = AddressModel;

    open spec fn view(&self) -> AddressModel {
        AddressModel {
            host: self.host@,
            port: self.port@,
            path: self.path@,
            fragment: self.fragment@,
        }
    }
}

/// What follows the scheme, up to a second `://` if there is one.
pub open spec fn after_scheme(url: Seq<char>) -> Seq<char> {
    let after = url.skip("http://"@.len() as int);
    match find(after, "://"@) {
        Some(i) => after.take(i),
        None => after,
    }
}

/// Host and port: what stands before the first `/`.
pub open spec fn host_and_port(rest: Seq<char>) -> Seq<char> {
    match find(rest, "/"@) {
        Some(i) => rest.take(i),
        None => rest,
    }
}

/// Path and fragment: what follows the first `/`, or `/` where there is
/// none.
pub open spec fn path_and_fragment(rest: Seq<char>) -> Seq<char> {
    match find(rest, "/"@) {
        Some(i) => rest.skip(i + 1),
        None => "/"@,
    }
}

/// The parts of `url`, or `None` where it does not begin with `http://`.
///
/// The port is what follows the last `:` of host and port, `80` without
/// one. The fragment is what follows the last `#` of path and fragment.
pub open spec fn address_of(url: Seq<char>) -> Option<AddressModel> {
    if !occurs_at(url, "http://"@, 0) {
        None
    } else {
        let rest = after_scheme(url);
        let front = host_and_port(rest);
        let back = path_and_fragment(rest);
        Some(
            AddressModel {
                host: match last_index_of(front, ':') {
                    Some(i) => front.take(i),
                    None => front,
                },
                port: match last_index_of(front, ':') {
                    Some(i) => front.skip(i + 1),
                    None => "80"@,
                },
                path: match last_index_of(back, '#') {
                    Some(i) => "/"@ + back.take(i),
                    None => "/"@ + back,
                },
                fragment: match last_index_of(back, '#') {
                    Some(i) => "#"@ + back.skip(i + 1),
                    None => Seq::empty(),
                },
            },
        )
    }
}

/// Takes an address apart; see [`address_of`].
pub fn parse_address(url: &str) -> (address: Option<Address>)
    ensures
        match address {
            Some(a) => address_of(url@) == Some(a@),
            None => address_of(url@) is None,
        },
{
    let chars = chars_of(url);
    let scheme = chars_of("http://");
    if !matches_at(&chars, &scheme, 0) {
        return None;
    }
    let after = copy_range(&chars, scheme.len(), chars.len());
    assert(after@ == url@.skip("http://"@.len() as int));
    let rest = match search_from(&after, &chars_of("://"), 0) {
        Some(i) => copy_range(&after, 0, i),
        None => after,
    };
    proof {
        reveal_strlit("/");
    }
    let slash = search_from(&rest, &chars_of("/"), 0);
    let front = match slash {
        Some(i) => copy_range(&rest, 0, i),
        None => copy_range(&rest, 0, rest.len()),
    };
    assert(front@ == host_and_port(rest@));
    let back = match slash {
        Some(i) => copy_range(&rest, i + 1, rest.len()),
        None => chars_of("/"),
    };
    let colon = search_last(&front, ':');
    let host = match colon {
        Some(i) => string_from_chars(&copy_range(&front, 0, i)),
        None => string_from_chars(&front),
    };
    let port = match colon {
        Some(i) => string_from_chars(&copy_range(&front, i + 1, front.len())),
        None => String::from_str("80"),
    };
    let hash = search_last(&back, '#');
    let path = match hash {
        Some(i) => String::from_str("/").concat(
            string_from_chars(&copy_range(&back, 0, i)).as_str(),
        ),
        None => String::from_str("/").concat(string_from_chars(&back).as_str()),
    };
    let fragment = match hash {
        Some(i) => String::from_str("#").concat(
            string_from_chars(&copy_range(&back, i + 1, back.len())).as_str(),
        ),
        None => String::new(),
    };
    Some(Address { host, port, path, fragment })
}

} // verus!
