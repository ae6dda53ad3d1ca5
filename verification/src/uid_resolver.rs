//! Resolution of operating-system user names to numeric user ids, with a
//! cache in front of the system's user database.

use uucore::entries::Locate;
use vstd::prelude::*;

use crate::types::Username;

verus! {

/// A numeric operating-system user id.
#[derive(Clone, Copy, PartialEq, Eq, Structural, Hash, Debug)]
pub struct Uid(pub u32);

impl Uid {
    pub fn is_root(&self) -> (r: bool)
        ensures
            r == (self.0 == 0),
    {
        self.0 == 0
    }
}

/// The system has no account of that name.
#[derive(PartialEq, Eq, Structural, Debug, Clone, Copy)]
pub struct ResolutionError;

/// Relies on uucore::entries::Passwd::locate: looks an account name up in
/// the system's user database; what it returns depends on the machine.
#[verifier::external_body]
fn locate_uid(name: &str) -> (r: Option<u32>) {
    match uucore::entries::Passwd::locate(name) {
        Ok(passwd) => Some(passwd.uid),
        Err(_) => None,
    }
}

/// The id recorded for a name, scanning from the front.
pub open spec fn lookup_from(known: Seq<(Username, Uid)>, name: Seq<char>, i: int) -> Option<Uid>
    decreases known.len() - i when 0 <= i <= known.len()
{
    if i >= known.len() {
        None
    } else if known[i].0.0@ == name {
        Some(known[i].1)
    } else {
        lookup_from(known, name, i + 1)
    }
}

/// Appending never changes the id an earlier entry already answers for.
proof fn lemma_lookup_push(known: Seq<(Username, Uid)>, name: Seq<char>, e: (Username, Uid), i: int)
    requires
        0 <= i <= known.len(),
        lookup_from(known, name, i) is Some,
    ensures
        lookup_from(known.push(e), name, i) == lookup_from(known, name, i),
    decreases known.len() - i,
{
    if i >= known.len() {
    } else if known[i].0.0@ == name {
    } else {
        lemma_lookup_push(known, name, e, i + 1);
    }
}

/// Appending an entry for one name leaves every other name's answer as it
/// was.
proof fn lemma_lookup_push_ne(
    known: Seq<(Username, Uid)>,
    name: Seq<char>,
    e: (Username, Uid),
    i: int,
)
    requires
        0 <= i <= known.len(),
        e.0.0@ != name,
    ensures
        lookup_from(known.push(e), name, i) == lookup_from(known, name, i),
    decreases known.len() - i,
{
    if i >= known.len() {
        assert(known.push(e)[i as int] == e);
    } else if known[i].0.0@ == name {
    } else {
        lemma_lookup_push_ne(known, name, e, i + 1);
    }
}

/// A cache of name-to-id resolutions.
pub struct Resolver {
    pub known: Vec<(Username, Uid)>,
}

impl Resolver {
    /// The id the cache holds for a name, if any.
    pub open spec fn spec_lookup(self, name: Seq<char>) -> Option<Uid> {
        lookup_from(self.known@, name, 0)
    }

    /// The cache only grows: every name it answers for, it keeps
    /// answering for with the same id.
    pub open spec fn extends(self, prior: Resolver) -> bool {
        forall|name: Seq<char>|
            (#[trigger] prior.spec_lookup(name)) is Some ==> self.spec_lookup(name)
                == prior.spec_lookup(name)
    }

    pub fn new() -> (r: Resolver)
        ensures
            forall|name: Seq<char>| r.spec_lookup(name) is None,
    {
        Resolver { known: Vec::new() }
    }

    /// Resolve a user name to a user id, asking the system's user database
    /// on a cache miss and remembering its answer. Once a name is cached,
    /// resolving it again is guaranteed to succeed with the same id.
    pub fn resolve(&mut self, name: &Username) -> (r: Result<Uid, ResolutionError>)
        ensures
            final(self).extends(*old(self)),
            forall|n: Seq<char>|
                n != name.0@ ==> #[trigger] final(self).spec_lookup(n) == old(self).spec_lookup(n),
            match r {
                Ok(uid) => final(self).spec_lookup(name.0@) == Some(uid),
                Err(_) => *final(self) == *old(self) && old(self).spec_lookup(name.0@) is None,
            },
            old(self).spec_lookup(name.0@) is Some ==> r == Ok::<Uid, ResolutionError>(
                old(self).spec_lookup(name.0@)->0,
            ),
    {
        let mut i: usize = 0;
        while i < self.known.len()
            invariant
                i <= self.known@.len(),
                forall|j: int| 0 <= j < i ==> (#[trigger] self.known@[j]).0.0@ != name.0@,
                lookup_from(self.known@, name.0@, 0) == lookup_from(self.known@, name.0@, i as int),
            decreases self.known@.len() - i,
        {
            if self.known[i].0.0.eq(&name.0) {
                proof {
                    assert(lookup_from(self.known@, name.0@, i as int) == Some(
                        self.known@[i as int].1,
                    ));
                }
                return Ok(self.known[i].1);
            }
            proof {
                assert(lookup_from(self.known@, name.0@, i as int) == lookup_from(
                    self.known@,
                    name.0@,
                    i + 1,
                ));
            }
            i += 1;
        }
        proof {
            assert(lookup_from(self.known@, name.0@, self.known@.len() as int) is None);
            assert(old(self).spec_lookup(name.0@) is None);
        }
        match locate_uid(name.0.as_str()) {
            None => Err(ResolutionError),
            Some(id) => {
                let uid = Uid(id);
                let entry = (name.clone(), uid);
                proof {
                    assert(entry.0 == *name);
                }
                let ghost before = self.known@;
                self.known.push(entry);
                proof {
                    assert(self.known@.last() == entry);
                    assert forall|j: int|
                        0 <= j < self.known@.len() - 1 implies (#[trigger] self.known@[j]).0.0@
                        != name.0@ by {
                        assert(self.known@[j] == before[j]);
                    }
                    lemma_lookup_some_at(self.known@, name.0@, 0);
                    assert(self.spec_lookup(name.0@) == Some(uid));
                    assert forall|n: Seq<char>|
                        (#[trigger] old(self).spec_lookup(n)) is Some implies self.spec_lookup(n)
                        == old(self).spec_lookup(n) by {
                        lemma_lookup_push(old(self).known@, n, entry, 0);
                    }
                    assert forall|n: Seq<char>| n != name.0@ implies #[trigger] self.spec_lookup(n)
                        == old(self).spec_lookup(n) by {
                        lemma_lookup_push_ne(old(self).known@, n, entry, 0);
                    }
                }
                Ok(uid)
            },
        }
    }
}

/// A lookup that scans past only mismatching entries finds the first entry
/// that matches.
proof fn lemma_lookup_some_at(known: Seq<(Username, Uid)>, name: Seq<char>, i: int)
    requires
        0 <= i <= known.len(),
        forall|j: int| i <= j < known.len() - 1 ==> (#[trigger] known[j]).0.0@ != name,
        known.len() > 0,
        i < known.len(),
        known.last().0.0@ == name,
    ensures
        lookup_from(known, name, i) == Some(known.last().1),
    decreases known.len() - i,
{
    if known[i].0.0@ == name {
        assert(i == known.len() - 1);
    } else {
        lemma_lookup_some_at(known, name, i + 1);
    }
}

} // verus!
