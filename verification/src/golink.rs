//! The value types: a validated short name and the link record it stands for.

use vstd::prelude::*;
use vstd::string::*;

use crate::weburl::{parses_as_url, url_parses};

verus! {

/// Whether `c` is one of `0`-`9`, `A`-`Z`, `a`-`z`.
pub open spec fn is_ascii_alphanumeric(c: char) -> bool {
    ('0' <= c <= '9') || ('A' <= c <= 'Z') || ('a' <= c <= 'z')
}

/// Whether `text` may serve as a short name: it is not empty and all its
/// characters are ASCII letters or digits.
pub open spec fn valid_id_text(text: Seq<char>) -> bool {
    &&& text.len() > 0
    &&& forall|i: int| 0 <= i < text.len() ==> is_ascii_alphanumeric(#[trigger] text[i])
}

/// Whether the byte is the ASCII code of a letter or a digit.
fn is_alphanumeric_byte(b: u8) -> (yes: bool)
    ensures
        yes == (b < 0x80 && is_ascii_alphanumeric(b as char)),
{
    (0x30 <= b && b <= 0x39) || (0x41 <= b && b <= 0x5a) || (0x61 <= b && b <= 0x7a)
}

/// Decides `valid_id_text` for a string slice.
pub fn is_valid_id_text(text: &str) -> (ok: bool)
    ensures
        ok == valid_id_text(text@),
{
    if !text.is_ascii() {
        return false;
    }
    let bytes = text.as_bytes();
    proof {
        is_ascii_spec_bytes(text);
    }
    if bytes.len() == 0 {
        return false;
    }
    let mut i: usize = 0;
    while i < bytes.len()
        invariant
            0 <= i <= bytes.len(),
            bytes@.len() == text@.len(),
            is_ascii(text),
            forall|j: int| 0 <= j < bytes@.len() ==> #[trigger] bytes@[j] == text@[j] as u8,
            forall|j: int| 0 <= j < i ==> is_ascii_alphanumeric(#[trigger] text@[j]),
        decreases bytes.len() - i,
    {
        if !is_alphanumeric_byte(bytes[i]) {
            return false;
        }
        i += 1;
    }
    true
}

/// A short name: a text that `valid_id_text` accepts.
#[derive(Debug, Hash)]
pub struct Id(String);

impl View for Id {
    type V = Seq<char>;

    closed spec fn view(&self) -> Seq<char> {
        self.0@
    }
}

impl Id {
    /// What holds of every name: its text is a valid one.
    #[verifier::type_invariant]
    pub open spec fn is_valid(&self) -> bool {
        valid_id_text(self@)
    }

    /// Makes a name of `param` if it is a valid one, and hands `param` back if
    /// it is not.
    pub fn from_param(param: &str) -> (r: Result<Id, &str>)
        ensures
            r is Ok <==> valid_id_text(param@),
            r matches Ok(id) ==> id@ == param@,
            r matches Err(rejected) ==> rejected@ == param@,
    {
        if is_valid_id_text(param) {
            Ok(Id(param.to_owned()))
        } else {
            Err(param)
        }
    }

    /// The name's text.
    pub fn as_str(&self) -> (text: &str)
        ensures
            text@ == self@,
            valid_id_text(text@),
    {
        proof {
            use_type_invariant(self);
        }
        self.0.as_str()
    }
}

impl core::ops::Deref for Id {
    type Target = String;

    fn deref(&self) -> (text: &String)
        ensures
            text@ == self@,
    {
        &self.0
    }
}

impl PartialEq for Id {
    fn eq(&self, other: &Id) -> (same: bool) {
        self.0 == other.0
    }
}

impl vstd::std_specs::cmp::PartialEqSpecImpl for Id {
    open spec fn obeys_eq_spec() -> bool {
        true
    }

    open spec fn eq_spec(&self, other: &Id) -> bool {
        self@ == other@
    }
}

impl Eq for Id {

}

impl Clone for Id {
    fn clone(&self) -> (copy: Id)
        ensures
            copy@ == self@,
    {
        proof {
            use_type_invariant(self);
        }
        Id(self.0.clone())
    }
}

/// What a link record says: the name and where it leads.
pub struct LinkView {
    pub name: Seq<char>,
    pub url: Seq<char>,
}

/// A link record: a short name and the URL it stands for. The URL of every
/// record is one that `parses_as_url` accepts.
#[derive(Debug)]
pub struct GoLink {
    url: String,
    name: Id,
}

impl View for GoLink {
    type V = LinkView;

    closed spec fn view(&self) -> LinkView {
        LinkView { name: self.name@, url: self.url@ }
    }
}

impl GoLink {
    /// What holds of every record: its URL parses.
    #[verifier::type_invariant]
    pub open spec fn is_valid(&self) -> bool {
        parses_as_url(self@.url)
    }

    /// Makes the record `name` -> `url` if `url` parses as a URL, and nothing if
    /// it does not.
    pub fn new(name: Id, url: String) -> (r: Option<GoLink>)
        ensures
            r is Some <==> parses_as_url(url@),
            r matches Some(link) ==> link@ == (LinkView { name: name@, url: url@ }),
    {
        if url_parses(url.as_str()) {
            Some(GoLink { name, url })
        } else {
            None
        }
    }

    /// Checks the fields of a request body: `fields` holds the name and the URL
    /// that the body gave, or nothing if the body could not be read as such a
    /// pair. A name that is not valid counts as a body that cannot be read.
    pub fn from_data(fields: Option<(String, String)>) -> (link: Result<GoLink, &'static str>)
        ensures
            match fields {
                Some(fields) => if !valid_id_text(fields.0@) {
                    link matches Err(message) && message@ == "Couldn't convert Json to GoLink"@
                } else if !parses_as_url(fields.1@) {
                    link matches Err(message) && message@ == "Field `url` is not a valid URL"@
                } else {
                    link matches Ok(link) && link@ == (LinkView { name: fields.0@, url: fields.1@ })
                },
                None => link matches Err(message) && message@
                    == "Couldn't convert Json to GoLink"@,
            },
    {
        match fields {
            Some(fields) => {
                let (name, url) = fields;
                match Id::from_param(name.as_str()) {
                    Ok(id) => match GoLink::new(id, url) {
                        Some(link) => Ok(link),
                        None => Err("Field `url` is not a valid URL"),
                    },
                    Err(_) => Err("Couldn't convert Json to GoLink"),
                }
            },
            None => Err("Couldn't convert Json to GoLink"),
        }
    }

    /// Where the link leads.
    pub fn url(&self) -> (url: &String)
        ensures
            url@ == self@.url,
            parses_as_url(url@),
    {
        proof {
            use_type_invariant(self);
        }
        &self.url
    }

    /// The link's name.
    pub fn name(&self) -> (name: &Id)
        ensures
            name@ == self@.name,
            valid_id_text(name@),
    {
        proof {
            use_type_invariant(&self.name);
        }
        &self.name
    }
}

impl Clone for GoLink {
    fn clone(&self) -> (copy: GoLink)
        ensures
            copy@ == self@,
    {
        proof {
            use_type_invariant(self);
        }
        GoLink { url: self.url.clone(), name: self.name.clone() }
    }
}

/// What each of the records says, in the same order.
pub open spec fn views(links: Seq<GoLink>) -> Seq<LinkView> {
    links.map_values(|link: GoLink| link@)
}

/// What an optional record says, if it is there.
pub open spec fn view_of(link: Option<GoLink>) -> Option<LinkView> {
    match link {
        Some(link) => Some(link@),
        None => None,
    }
}

} // verus!
