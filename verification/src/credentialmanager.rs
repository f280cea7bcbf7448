use crate::filters::spec_texts;
use crate::registry::spec_distinct_keys;
use crate::registry::spec_has_key;
use crate::registry::spec_lookup;
use crate::registry::spec_put;
use crate::registry::Registry;
use crate::text::spec_text_pair;
use crate::text::split_pair;
use vstd::prelude::*;

verus! {

/// The byte `,`, which stands between a user name and its password.
pub const COMMA: u8 = 44;

/// The credentials after the first `count` of the lines were read: each
/// line that holds a user name and a password around a comma adds them,
/// unless the user name has a password already. Any other line is passed
/// over.
pub open spec fn spec_refresh(
    entries: Seq<(Seq<char>, Seq<char>)>,
    lines: Seq<Seq<char>>,
    count: nat,
) -> Seq<(Seq<char>, Seq<char>)>
    decreases count,
{
    if count == 0 {
        entries
    } else {
        let earlier = spec_refresh(entries, lines, (count - 1) as nat);
        match spec_text_pair(lines[count - 1], COMMA) {
            Some((username, password)) => if spec_has_key(earlier, username) {
                earlier
            } else {
                spec_put(earlier, username, password)
            },
            None => earlier,
        }
    }
}

/// The user names that may connect, each with its password.
///
/// The view is the run of entries, each a user name with its password, in
/// the order in which the names came; no name occurs twice.
pub struct CredentialManager {
    credentials: Registry<String>,
}

impl View for CredentialManager {
    type V = Seq<(Seq<char>, Seq<char>)>;

    closed spec fn view(&self) -> Seq<(Seq<char>, Seq<char>)> {
        self.credentials@
    }
}

impl CredentialManager {
    /// A store without credentials.
    pub fn new() -> (r: CredentialManager)
        ensures
            r@ == Seq::<(Seq<char>, Seq<char>)>::empty(),
    {
        CredentialManager { credentials: Registry::new() }
    }

    /// Gives `username` the password `password`, in place of the one it had.
    pub fn add_credential(&mut self, username: &str, password: &str)
        ensures
            final(self)@ == spec_put(old(self)@, username@, password@),
            spec_distinct_keys(final(self)@),
    {
        match self.credentials.find(username) {
            Some(i) => self.credentials.set_value_at(i, password.to_owned()),
            None => self.credentials.push(username.to_owned(), password.to_owned()),
        }
    }

    /// Reads lines of the form `username,password`: each user name that has
    /// no password yet is given the one of its line. What a user name had
    /// stays.
    pub fn add_new_credentials(&mut self, lines: &Vec<String>)
        ensures
            final(self)@ == spec_refresh(old(self)@, spec_texts(lines@), lines@.len()),
    {
        let ghost texts = spec_texts(lines@);
        let mut i: usize = 0;
        while i < lines.len()
            invariant
                i <= lines.len(),
                texts == spec_texts(lines@),
                self@ == spec_refresh(old(self)@, texts, i as nat),
            decreases lines.len() - i,
        {
            assert(lines@[i as int]@ == texts[i as int]);
            match split_pair(lines[i].as_str(), COMMA) {
                Some((username, password)) => {
                    if !self.has_username(username.as_str()) {
                        self.add_credential(username.as_str(), password.as_str());
                    }
                },
                None => {},
            }
            i += 1;
        }
    }

    /// Whether `username` has a password.
    pub fn has_username(&self, username: &str) -> (r: bool)
        ensures
            r == spec_has_key(self@, username@),
            spec_distinct_keys(self@),
    {
        self.credentials.find(username).is_some()
    }

    /// Whether `password` is the password of `username`, character for
    /// character.
    pub fn is_valid(&self, username: &str, password: &str) -> (r: bool)
        ensures
            r == (spec_lookup(self@, username@) == Some(password@)),
            spec_distinct_keys(self@),
    {
        match self.credentials.find(username) {
            Some(i) => crate::text::str_eq(self.credentials.value_at(i).as_str(), password),
            None => false,
        }
    }
}

} // verus!
