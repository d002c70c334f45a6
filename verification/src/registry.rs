//! The type registries: a human-chosen alias, a unique type tag and a unique
//! stable identifier are bound to a descriptor for one record or template
//! type.  Registration is atomic: a collision on any of the three keys fails
//! without touching the registry.

use vstd::prelude::*;

use crate::ids::fresh_u128;
use crate::overrides::{OverrideDescriptor, OverrideRegistry};
use crate::values::Schema;

verus! {

/// Why a registration was refused.  Each key has its own condition.
#[derive(Debug, Clone, PartialEq, Eq)]
pub enum RegistryError {
    AliasAlreadyRegistered(String),
    TypeAlreadyRegistered(u64),
    UuidAlreadyRegistered(u128),
}

/// One registered entry: the three keys and the descriptor they bind.
#[derive(Debug, Clone, PartialEq)]
pub struct RegEntry<T> {
    pub alias: String,
    pub type_tag: u64,
    pub uuid: u128,
    pub item: T,
}

/// A registry of descriptors, addressable by alias, by type tag and by
/// stable identifier.
#[derive(Debug, Clone, PartialEq)]
pub struct Registry<T> {
    pub reg: Vec<RegEntry<T>>,
}

impl<T> Registry<T> {
    pub open spec fn entries(self) -> Seq<RegEntry<T>> {
        self.reg@
    }

    pub open spec fn has_alias(self, name: Seq<char>) -> bool {
        exists|i: int| 0 <= i < self.entries().len() && #[trigger] self.entries()[i].alias@ == name
    }

    pub open spec fn alias_index(self, name: Seq<char>) -> int {
        alias_tag_index(self.entries(), name)
    }

    pub open spec fn has_tag(self, tag: u64) -> bool {
        exists|i: int|
            0 <= i < self.entries().len() && #[trigger] self.entries()[i].type_tag == tag
    }

    pub open spec fn tag_index(self, tag: u64) -> int {
        type_tag_index(self.entries(), tag)
    }

    pub open spec fn has_uuid(self, uuid: u128) -> bool {
        exists|i: int| 0 <= i < self.entries().len() && #[trigger] self.entries()[i].uuid == uuid
    }

    /// The descriptor registered under an alias.
    pub open spec fn at_alias(self, name: Seq<char>) -> T {
        self.entries()[self.alias_index(name)].item
    }

    /// The descriptor registered under a type tag.
    pub open spec fn at_tag(self, tag: u64) -> T {
        self.entries()[self.tag_index(tag)].item
    }

    /// No two entries share an alias, a type tag or an identifier.
    pub open spec fn wf(self) -> bool {
        forall|i: int, j: int|
            0 <= i < j < self.entries().len() ==> #[trigger] self.entries()[i].alias@
                != #[trigger] self.entries()[j].alias@ && self.entries()[i].type_tag
                != self.entries()[j].type_tag && self.entries()[i].uuid != self.entries()[j].uuid
    }
}

/// The index of the first entry under the given alias.
pub open spec fn alias_tag_index<T>(entries: Seq<RegEntry<T>>, name: Seq<char>) -> int
    decreases entries.len(),
{
    if entries.len() == 0 {
        0
    } else if entries[0].alias@ == name {
        0
    } else {
        1 + alias_tag_index(entries.drop_first(), name)
    }
}

/// The index of the first entry under the given type tag.
pub open spec fn type_tag_index<T>(entries: Seq<RegEntry<T>>, tag: u64) -> int
    decreases entries.len(),
{
    if entries.len() == 0 {
        0
    } else if entries[0].type_tag == tag {
        0
    } else {
        1 + type_tag_index(entries.drop_first(), tag)
    }
}

/// If entry `i` carries the alias and no earlier one does, `i` is the index
/// the lookup denotes.
pub proof fn lemma_alias_index_first<T>(entries: Seq<RegEntry<T>>, name: Seq<char>, i: int)
    requires
        0 <= i < entries.len(),
        entries[i].alias@ == name,
        forall|j: int| 0 <= j < i ==> #[trigger] entries[j].alias@ != name,
    ensures
        alias_tag_index(entries, name) == i,
    decreases i,
{
    if i > 0 {
        lemma_alias_index_first(entries.drop_first(), name, i - 1);
    }
}

/// If entry `i` carries the tag and no earlier one does, `i` is the index
/// the lookup denotes.
pub proof fn lemma_tag_index_first<T>(entries: Seq<RegEntry<T>>, tag: u64, i: int)
    requires
        0 <= i < entries.len(),
        entries[i].type_tag == tag,
        forall|j: int| 0 <= j < i ==> #[trigger] entries[j].type_tag != tag,
    ensures
        type_tag_index(entries, tag) == i,
    decreases i,
{
    if i > 0 {
        lemma_tag_index_first(entries.drop_first(), tag, i - 1);
    }
}

impl<T> Registry<T> {
    /// An empty registry.
    pub fn empty() -> (r: Registry<T>)
        ensures
            r.entries().len() == 0,
            r.wf(),
    {
        Registry { reg: Vec::new() }
    }

    /// Finds the descriptor registered under an alias.
    pub fn find_by_name(&self, name: &String) -> (r: Option<&T>)
        ensures
            match r {
                Some(d) => self.has_alias(name@) && *d == self.at_alias(name@),
                None => !self.has_alias(name@),
            },
    {
        let n = self.reg.len();
        let mut i: usize = 0;
        while i < n
            invariant
                n == self.entries().len(),
                i <= n,
                forall|j: int| 0 <= j < i as int ==> #[trigger] self.entries()[j].alias@ != name@,
            decreases n - i,
        {
            if self.reg[i].alias == *name {
                proof {
                    lemma_alias_index_first(self.entries(), name@, i as int);
                }
                return Some(&self.reg[i].item);
            }
            i = i + 1;
        }
        None
    }

    /// Finds the descriptor registered under a type tag.
    pub fn find_by_type(&self, type_tag: u64) -> (r: Option<&T>)
        ensures
            match r {
                Some(d) => self.has_tag(type_tag) && *d == self.at_tag(type_tag),
                None => !self.has_tag(type_tag),
            },
    {
        let n = self.reg.len();
        let mut i: usize = 0;
        while i < n
            invariant
                n == self.entries().len(),
                i <= n,
                forall|j: int|
                    0 <= j < i as int ==> #[trigger] self.entries()[j].type_tag != type_tag,
            decreases n - i,
        {
            if self.reg[i].type_tag == type_tag {
                proof {
                    lemma_tag_index_first(self.entries(), type_tag, i as int);
                }
                return Some(&self.reg[i].item);
            }
            i = i + 1;
        }
        None
    }

    /// Whether some entry carries the identifier.
    pub fn contains_uuid(&self, uuid: u128) -> (r: bool)
        ensures
            r == self.has_uuid(uuid),
    {
        let n = self.reg.len();
        let mut i: usize = 0;
        while i < n
            invariant
                n == self.entries().len(),
                i <= n,
                forall|j: int| 0 <= j < i as int ==> #[trigger] self.entries()[j].uuid != uuid,
            decreases n - i,
        {
            if self.reg[i].uuid == uuid {
                return true;
            }
            i = i + 1;
        }
        false
    }

    /// The identifiers of all entries.
    pub fn uuids(&self) -> (r: Vec<u128>)
        ensures
            r@.len() == self.entries().len(),
            forall|i: int| 0 <= i < r@.len() ==> r@[i] == #[trigger] self.entries()[i].uuid,
            forall|u: u128| r@.contains(u) <==> self.has_uuid(u),
    {
        let n = self.reg.len();
        let mut r: Vec<u128> = Vec::new();
        let mut i: usize = 0;
        while i < n
            invariant
                n == self.entries().len(),
                i <= n,
                r@.len() == i as int,
                forall|j: int| 0 <= j < i as int ==> r@[j] == #[trigger] self.entries()[j].uuid,
            decreases n - i,
        {
            r.push(self.reg[i].uuid);
            i = i + 1;
        }
        proof {
            assert forall|u: u128| r@.contains(u) implies self.has_uuid(u) by {
                let w = choose|w: int| 0 <= w < r@.len() && r@[w] == u;
                assert(self.entries()[w].uuid == u);
            }
            assert forall|u: u128| self.has_uuid(u) implies r@.contains(u) by {
                let w = choose|w: int|
                    0 <= w < self.entries().len() && #[trigger] self.entries()[w].uuid == u;
                assert(r@[w] == u);
            }
        }
        r
    }

    /// Registers a descriptor under an alias, a type tag and an identifier.
    /// A collision on any key fails with that key's error and leaves the
    /// registry untouched; otherwise the entry is appended and its index
    /// handed back.
    pub fn register_internal(&mut self, alias: String, type_tag: u64, uuid: u128, item: T) -> (r:
        Result<usize, RegistryError>)
        ensures
            match r {
                Ok(i) => {
                    &&& !old(self).has_alias(alias@)
                    &&& !old(self).has_tag(type_tag)
                    &&& !old(self).has_uuid(uuid)
                    &&& i as int == old(self).entries().len()
                    &&& final(self).entries() == old(self).entries().push(
                        RegEntry { alias, type_tag, uuid, item },
                    )
                },
                Err(RegistryError::AliasAlreadyRegistered(a)) => {
                    &&& old(self).has_alias(alias@)
                    &&& a@ == alias@
                    &&& *final(self) == *old(self)
                },
                Err(RegistryError::TypeAlreadyRegistered(t)) => {
                    &&& !old(self).has_alias(alias@)
                    &&& old(self).has_tag(type_tag)
                    &&& t == type_tag
                    &&& *final(self) == *old(self)
                },
                Err(RegistryError::UuidAlreadyRegistered(u)) => {
                    &&& !old(self).has_alias(alias@)
                    &&& !old(self).has_tag(type_tag)
                    &&& old(self).has_uuid(uuid)
                    &&& u == uuid
                    &&& *final(self) == *old(self)
                },
            },
            old(self).wf() ==> final(self).wf(),
    {
        if self.find_by_name(&alias).is_some() {
            return Err(RegistryError::AliasAlreadyRegistered(alias));
        }
        if self.find_by_type(type_tag).is_some() {
            return Err(RegistryError::TypeAlreadyRegistered(type_tag));
        }
        if self.contains_uuid(uuid) {
            return Err(RegistryError::UuidAlreadyRegistered(uuid));
        }
        let i = self.reg.len();
        let ghost pre = *self;
        self.reg.push(RegEntry { alias, type_tag, uuid, item });
        proof {
            if pre.wf() {
                assert forall|a: int, b: int|
                    0 <= a < b < self.entries().len() implies #[trigger] self.entries()[a].alias@
                    != #[trigger] self.entries()[b].alias@ && self.entries()[a].type_tag
                    != self.entries()[b].type_tag && self.entries()[a].uuid
                    != self.entries()[b].uuid by {
                    if b < pre.entries().len() {
                    } else {
                        assert(self.entries()[a] == pre.entries()[a]);
                    }
                }
            }
        }
        Ok(i)
    }
}

/// Makes a type path more human readable by trimming the leading path of
/// every segment: what remains of `module::Foo<module::Bar>` is `Foo<Bar>`.
/// The text is scanned from its end; `>` and `<` track the nesting depth,
/// a path separator at the outermost depth ends the scan, and one inside a
/// generic argument turns further copying at that depth off.
pub open spec fn spec_shorten_rev(rev: Seq<char>, depth: int, skip: int) -> Seq<char>
    decreases rev.len(),
{
    if rev.len() == 0 {
        Seq::empty()
    } else {
        let c = rev[0];
        let rest = rev.drop_first();
        if c == '>' {
            seq!['>'] + spec_shorten_rev(rest, depth + 1, skip)
        } else if c == '<' {
            seq!['<'] + spec_shorten_rev(rest, if depth > 0 { depth - 1 } else { 0 }, skip)
        } else if c == ':' {
            if depth == 0 {
                Seq::empty()
            } else if rest.len() == 0 {
                Seq::empty()
            } else {
                spec_shorten_rev(rest.drop_first(), depth, depth)
            }
        } else if skip != depth {
            seq![c] + spec_shorten_rev(rest, depth, skip)
        } else {
            spec_shorten_rev(rest, depth, skip)
        }
    }
}

/// What `shorten_name` computes, over the characters of the input.
pub open spec fn spec_shorten(s: Seq<char>) -> Seq<char> {
    spec_shorten_rev(s.reverse(), 0, -1).reverse()
}

/// Relies on `String: FromIterator<char>`: the collected string holds
/// exactly the given characters, in order.
#[verifier::external_body]
fn chars_to_string(cs: &Vec<char>) -> (r: String)
    ensures
        r@ == cs@,
{
    cs.iter().collect()
}

/// The characters of a string slice, in order.
fn str_chars(s: &str) -> (r: Vec<char>)
    ensures
        r@ == s@,
{
    let n = s.unicode_len();
    let mut r: Vec<char> = Vec::new();
    let mut i: usize = 0;
    while i < n
        invariant
            n == s@.len(),
            i <= n,
            r@.len() == i as int,
            forall|j: int| 0 <= j < i as int ==> r@[j] == s@[j],
        decreases n - i,
    {
        r.push(s.get_char(i));
        i = i + 1;
    }
    proof {
        assert(r@ =~= s@);
    }
    r
}

/// Makes a type path more human readable by trimming the leading path of
/// every segment, so `module::Foo<module::Bar>` becomes `Foo<Bar>`.
pub fn shorten_name(input: &str) -> (r: String)
    ensures
        r@ == spec_shorten(input@),
{
    let chars = str_chars(input);
    let n = chars.len();
    let mut out_rev: Vec<char> = Vec::new();
    let mut depth: usize = 0;
    let mut skip: Option<usize> = None;
    let mut i: usize = 0;
    let ghost rev = input@.reverse();
    proof {
        assert(rev.skip(0) =~= rev);
    }
    while i < n
        invariant
            n == chars@.len(),
            chars@ == input@,
            rev == input@.reverse(),
            i <= n,
            depth <= i,
            match skip {
                Some(k) => k <= n,
                None => true,
            },
            forall|j: int| 0 <= j < i as int ==> rev[j] == input@[n - 1 - j],
            spec_shorten_rev(rev, 0, -1) == out_rev@ + spec_shorten_rev(
                rev.skip(i as int),
                depth as int,
                match skip {
                    Some(k) => k as int,
                    None => -1,
                },
            ),
        decreases n - i,
    {
        proof {
            assert(rev[i as int] == input@[n - 1 - i as int]);
            assert(rev.skip(i as int).len() > 0);
            assert(rev.skip(i as int)[0] == rev[i as int]);
            assert(rev.skip(i as int).drop_first() =~= rev.skip(i as int + 1));
        }
        let c = chars[n - 1 - i];
        if c == '>' {
            out_rev.push('>');
            depth = depth + 1;
            i = i + 1;
        } else if c == '<' {
            out_rev.push('<');
            if depth > 0 {
                depth = depth - 1;
            }
            i = i + 1;
        } else if c == ':' {
            if depth == 0 {
                proof {
                    assert(spec_shorten_rev(rev, 0, -1) =~= out_rev@);
                }
                let shortened = reverse_chars(&out_rev);
                return chars_to_string(&shortened);
            }
            if i + 1 < n {
                proof {
                    assert(rev.skip(i as int).drop_first().drop_first() =~= rev.skip(i as int + 2));
                }
                skip = Some(depth);
                i = i + 2;
            } else {
                proof {
                    assert(spec_shorten_rev(rev, 0, -1) =~= out_rev@);
                }
                let shortened = reverse_chars(&out_rev);
                return chars_to_string(&shortened);
            }
        } else {
            let skipping = match skip {
                Some(k) => k == depth,
                None => false,
            };
            if !skipping {
                out_rev.push(c);
            }
            i = i + 1;
        }
    }
    proof {
        assert(rev.skip(n as int) =~= Seq::<char>::empty());
        assert(spec_shorten_rev(rev, 0, -1) =~= out_rev@);
    }
    let shortened = reverse_chars(&out_rev);
    chars_to_string(&shortened)
}

/// The characters in reverse order.
fn reverse_chars(v: &Vec<char>) -> (r: Vec<char>)
    ensures
        r@ == v@.reverse(),
{
    let n = v.len();
    let mut r: Vec<char> = Vec::new();
    let mut i: usize = 0;
    while i < n
        invariant
            n == v@.len(),
            i <= n,
            r@.len() == i as int,
            forall|j: int| 0 <= j < i as int ==> r@[j] == v@[n - 1 - j],
        decreases n - i,
    {
        r.push(v[n - 1 - i]);
        i = i + 1;
    }
    proof {
        assert(r@ =~= v@.reverse());
    }
    r
}

} // verus!
