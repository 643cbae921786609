use vstd::prelude::*;

use crate::error::ProtocolError;
use crate::text::{collect_chars, push_char, push_str};

verus! {

/// A character allowed in a namespace: `[a-z0-9._-]`.
pub open spec fn namespace_char(c: char) -> bool {
    ('a' <= c && c <= 'z') || ('0' <= c && c <= '9') || c == '.' || c == '-' || c == '_'
}

/// A character allowed in a path: a namespace character or `/`.
pub open spec fn path_char(c: char) -> bool {
    namespace_char(c) || c == '/'
}

pub open spec fn valid_namespace(s: Seq<char>) -> bool {
    s.len() > 0 && forall|i: int| 0 <= i < s.len() ==> #[trigger] namespace_char(s[i])
}

pub open spec fn valid_path(s: Seq<char>) -> bool {
    s.len() > 0 && forall|i: int| 0 <= i < s.len() ==> #[trigger] path_char(s[i])
}

/// The namespace of vanilla content.
pub open spec fn minecraft_chars() -> Seq<char> {
    seq!['m', 'i', 'n', 'e', 'c', 'r', 'a', 'f', 't']
}

/// The namespace of this server's own content.
pub open spec fn minestodon_chars() -> Seq<char> {
    seq!['m', 'i', 'n', 'e', 's', 't', 'o', 'd', 'o', 'n']
}

/// An identifier as a mathematical value.
pub struct IdentifierView {
    pub namespace: Seq<char>,
    pub path: Seq<char>,
}

/// The position of the first `:` in `s` at or after `i`.
pub open spec fn first_colon(s: Seq<char>, i: nat) -> Option<nat>
    decreases s.len() - i,
{
    if i >= s.len() {
        None
    } else if s[i as int] == ':' {
        Some(i)
    } else {
        first_colon(s, i + 1)
    }
}

/// The namespace and path that `s` names: split at the first `:`, or the
/// vanilla namespace when there is none.
pub open spec fn split_identifier(s: Seq<char>) -> IdentifierView {
    match first_colon(s, 0) {
        Some(k) => IdentifierView {
            namespace: s.subrange(0, k as int),
            path: s.subrange(k + 1 as int, s.len() as int),
        },
        None => IdentifierView { namespace: minecraft_chars(), path: s },
    }
}

/// A namespaced name, `namespace:path`.
pub struct Identifier {
    namespace: String,
    path: String,
}

impl View for Identifier {
    type V = IdentifierView;

    closed spec fn view(&self) -> IdentifierView {
        IdentifierView { namespace: self.namespace@, path: self.path@ }
    }
}

/// `namespace:path`.
pub open spec fn identifier_chars(id: IdentifierView) -> Seq<char> {
    id.namespace + seq![':'] + id.path
}

fn all_namespace_chars(cs: &Vec<char>, allow_slash: bool) -> (r: bool)
    ensures
        r == (cs@.len() > 0 && forall|i: int|
            0 <= i < cs@.len() ==> if allow_slash {
                path_char(#[trigger] cs@[i])
            } else {
                namespace_char(cs@[i])
            }),
{
    if cs.len() == 0 {
        return false;
    }
    let mut i: usize = 0;
    while i < cs.len()
        invariant
            i <= cs@.len(),
            forall|k: int|
                0 <= k < i ==> if allow_slash {
                    path_char(#[trigger] cs@[k])
                } else {
                    namespace_char(cs@[k])
                },
        decreases cs.len() - i,
    {
        let c = cs[i];
        let ok = ('a' <= c && c <= 'z') || ('0' <= c && c <= '9') || c == '.' || c == '-' || c
            == '_' || (allow_slash && c == '/');
        if !ok {
            return false;
        }
        i = i + 1;
    }
    true
}

fn string_of_chars(cs: &Vec<char>, from: usize, to: usize) -> (r: String)
    requires
        from <= to <= cs@.len(),
    ensures
        r@ == cs@.subrange(from as int, to as int),
{
    let mut s = String::new();
    let mut i: usize = from;
    while i < to
        invariant
            from <= i <= to <= cs@.len(),
            s@ == cs@.subrange(from as int, i as int),
        decreases to - i,
    {
        push_char(&mut s, cs[i]);
        assert(cs@.subrange(from as int, i + 1 as int) == cs@.subrange(from as int, i as int).push(
            cs@[i as int],
        ));
        i = i + 1;
    }
    s
}

impl Identifier {
    /// An identifier from a namespace and a path; fails when either is empty
    /// or holds a character outside its grammar.
    pub fn new(namespace: String, path: String) -> (r: Result<Identifier, ProtocolError>)
        ensures
            match r {
                Ok(id) => valid_namespace(namespace@) && valid_path(path@) && id@.namespace
                    == namespace@ && id@.path == path@,
                Err(e) => !(valid_namespace(namespace@) && valid_path(path@)) && e
                    == ProtocolError::InvalidIdentifier,
            },
    {
        let ns_chars = collect_chars(namespace.as_str());
        if !all_namespace_chars(&ns_chars, false) {
            return Err(ProtocolError::InvalidIdentifier);
        }
        let path_chars = collect_chars(path.as_str());
        if !all_namespace_chars(&path_chars, true) {
            return Err(ProtocolError::InvalidIdentifier);
        }
        Ok(Identifier { namespace, path })
    }

    /// Parses `namespace:path`, or a bare path in the vanilla namespace.
    pub fn parse(s: &str) -> (r: Result<Identifier, ProtocolError>)
        ensures
            match r {
                Ok(id) => valid_namespace(split_identifier(s@).namespace) && valid_path(
                    split_identifier(s@).path,
                ) && id@ == split_identifier(s@),
                Err(e) => !(valid_namespace(split_identifier(s@).namespace) && valid_path(
                    split_identifier(s@).path,
                )) && e == ProtocolError::InvalidIdentifier,
            },
    {
        let cs = collect_chars(s);
        let mut i: usize = 0;
        while i < cs.len() && cs[i] != ':'
            invariant
                i <= cs@.len(),
                cs@ == s@,
                first_colon(s@, i as nat) == first_colon(s@, 0),
            decreases cs.len() - i,
        {
            i = i + 1;
        }
        if i < cs.len() {
            assert(first_colon(s@, i as nat) == Some(i as nat));
            let namespace = string_of_chars(&cs, 0, i);
            let path = string_of_chars(&cs, i + 1, cs.len());
            Identifier::new(namespace, path)
        } else {
            assert(cs@.subrange(0, cs@.len() as int) == cs@);
            let path = string_of_chars(&cs, 0, cs.len());
            let namespace = String::from_str("minecraft");
            proof {
                reveal_strlit("minecraft");
                assert("minecraft"@ =~= minecraft_chars());
                assert(first_colon(s@, i as nat) is None);
            }
            Identifier::new(namespace, path)
        }
    }

    /// An identifier in the vanilla namespace.
    pub fn minecraft(path: &str) -> (r: Identifier)
        requires
            valid_path(path@),
        ensures
            r@ == (IdentifierView { namespace: minecraft_chars(), path: path@ }),
    {
        proof {
            reveal_strlit("minecraft");
            assert("minecraft"@ =~= minecraft_chars());
        }
        Identifier { namespace: String::from_str("minecraft"), path: String::from_str(path) }
    }

    /// An identifier in this server's namespace.
    pub fn minestodon(path: &str) -> (r: Identifier)
        requires
            valid_path(path@),
        ensures
            r@ == (IdentifierView { namespace: minestodon_chars(), path: path@ }),
    {
        proof {
            reveal_strlit("minestodon");
            assert("minestodon"@ =~= minestodon_chars());
        }
        Identifier { namespace: String::from_str("minestodon"), path: String::from_str(path) }
    }

    pub fn namespace(&self) -> (r: &str)
        ensures
            r@ == self@.namespace,
    {
        self.namespace.as_str()
    }

    pub fn path(&self) -> (r: &str)
        ensures
            r@ == self@.path,
    {
        self.path.as_str()
    }

    /// `namespace:path`.
    pub fn to_string(&self) -> (r: String)
        ensures
            r@ == identifier_chars(self@),
    {
        let mut s = self.namespace.clone();
        push_char(&mut s, ':');
        push_str(&mut s, self.path.as_str());
        s
    }

    /// Structural equality.
    pub fn same_as(&self, other: &Identifier) -> (r: bool)
        ensures
            r == (self@ == other@),
    {
        self.namespace == other.namespace && self.path == other.path
    }

    pub fn copy(&self) -> (r: Identifier)
        ensures
            r@ == self@,
    {
        Identifier { namespace: self.namespace.clone(), path: self.path.clone() }
    }
}

} // verus!
