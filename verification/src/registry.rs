use vstd::prelude::*;

use crate::text::{distinct_names, find_name, lemma_name_position_unique, lemma_push_new_name, name_position, str_views, string_views};

verus! {

/// Maps script-defined tag names to dense `u32` ids, in registration order.
#[derive(Debug, Default)]
pub struct TagRegistry {
    id_to_name: Vec<String>,
}

impl TagRegistry {
    /// The registered names; a name's id is its position.
    pub closed spec fn names(&self) -> Seq<Seq<char>> {
        string_views(self.id_to_name@)
    }

    /// No name is registered twice.
    pub open spec fn wf(&self) -> bool {
        distinct_names(self.names())
    }

    pub fn new() -> (r: Self)
        ensures
            r.wf(),
            r.names() == Seq::<Seq<char>>::empty(),
    {
        let r = TagRegistry { id_to_name: Vec::new() };
        assert(r.names() =~= Seq::<Seq<char>>::empty());
        r
    }

    /// Registers `name` and returns its id; a name registered before keeps the
    /// id it was given.
    pub fn register(&mut self, name: &str) -> (r: u32)
        requires
            old(self).wf(),
            old(self).names().len() < u32::MAX,
        ensures
            final(self).wf(),
            match name_position(old(self).names(), name@) {
                Some(i) => r == i && final(self).names() == old(self).names(),
                None => r == old(self).names().len() && final(self).names() == old(self).names().push(name@),
            },
    {
        match find_name(&self.id_to_name, name) {
            Some(i) => i as u32,
            None => {
                let id = self.id_to_name.len() as u32;
                let ghost old_names = self.names();
                self.id_to_name.push(name.to_string());
                proof {
                    assert(self.names() =~= old_names.push(name@));
                    lemma_push_new_name(old_names, name@);
                }
                id
            },
        }
    }

    /// The id of `name`, if it has been registered.
    pub fn id_of(&self, name: &str) -> (r: Option<u32>)
        requires
            self.wf(),
            self.names().len() <= u32::MAX,
        ensures
            match name_position(self.names(), name@) {
                Some(i) => r == Some(i as u32),
                None => r is None,
            },
    {
        match find_name(&self.id_to_name, name) {
            Some(i) => Some(i as u32),
            None => None,
        }
    }

    /// The name registered under `id`, if any.
    pub fn name_of(&self, id: u32) -> (r: Option<&str>)
        ensures
            (id < self.names().len()) == (r is Some),
            r matches Some(s) ==> s@ == self.names()[id as int],
    {
        let i = id as usize;
        if i < self.id_to_name.len() {
            Some(self.id_to_name[i].as_str())
        } else {
            None
        }
    }
}

/// Registering a name gives it an id under which it is found again by both
/// lookups, and registering it a second time gives the same id and changes
/// nothing.
pub proof fn lemma_tag_register_roundtrip(names: Seq<Seq<char>>, name: Seq<char>)
    requires
        distinct_names(names),
    ensures
        ({
            let (after, id) = tag_register(names, name);
            &&& distinct_names(after)
            &&& name_position(after, name) == Some(id)
            &&& 0 <= id < after.len()
            &&& after[id] == name
            &&& tag_register(after, name) == (after, id)
        }),
{
    match name_position(names, name) {
        Some(i) => {
            assert(names[i] == name);
            lemma_name_position_unique(names, i);
        },
        None => {
            lemma_push_new_name(names, name);
        },
    }
    let (after, id) = tag_register(names, name);
    assert(names.push(name)[names.len() as int] == name);
    lemma_name_position_unique(after, id);
}

/// The names and id after registering `name` in a tag registry holding `names`.
pub open spec fn tag_register(names: Seq<Seq<char>>, name: Seq<char>) -> (Seq<Seq<char>>, int) {
    match name_position(names, name) {
        Some(i) => (names, i),
        None => (names.push(name), names.len() as int),
    }
}

// ── ComponentRegistry ─────────────────────────────────────────────────────────

/// Maps component names to factories that build a component from serialized
/// bytes.
pub struct ComponentRegistry<F> {
    names: Vec<String>,
    factories: Vec<F>,
}

impl<F> ComponentRegistry<F> {
    /// The registered names.
    pub closed spec fn names(&self) -> Seq<Seq<char>> {
        string_views(self.names@)
    }

    /// The factory registered at position `i` of [`Self::names`].
    pub closed spec fn factory_at(&self, i: int) -> F {
        self.factories@[i]
    }

    /// No name twice, and one factory per name.
    pub closed spec fn wf(&self) -> bool {
        &&& distinct_names(self.names())
        &&& self.names@.len() == self.factories@.len()
    }

    /// Whether `name` has a factory.
    pub open spec fn registered(&self, name: Seq<char>) -> bool {
        name_position(self.names(), name) is Some
    }

    /// The factory registered for `name`.
    pub open spec fn factory(&self, name: Seq<char>) -> F {
        self.factory_at(name_position(self.names(), name).unwrap())
    }

    pub fn new() -> (r: Self)
        ensures
            r.wf(),
            r.names() == Seq::<Seq<char>>::empty(),
    {
        let r = ComponentRegistry { names: Vec::new(), factories: Vec::new() };
        assert(r.names() =~= Seq::<Seq<char>>::empty());
        r
    }

    /// Registers `factory` under `name`, replacing the factory registered
    /// under that name before, if any.
    pub fn register(&mut self, name: &str, factory: F)
        requires
            old(self).wf(),
        ensures
            final(self).wf(),
            final(self).registered(name@),
            final(self).factory(name@) == factory,
            forall|other: Seq<char>| #![trigger final(self).registered(other)] other != name@ ==> {
                &&& final(self).registered(other) == old(self).registered(other)
                &&& old(self).registered(other) ==> final(self).factory(other) == old(self).factory(other)
            },
            old(self).registered(name@) ==> final(self).names() == old(self).names(),
            !old(self).registered(name@) ==> final(self).names() == old(self).names().push(name@),
    {
        let ghost old_names = self.names();
        match find_name(&self.names, name) {
            Some(i) => {
                self.factories.set(i, factory);
                proof {
                    assert forall|other: Seq<char>| other != name@ && self.registered(other) implies self.factory(other) == old(self).factory(other) by {
                        let k = name_position(old_names, other).unwrap();
                        assert(k != i);
                    }
                }
            },
            None => {
                self.names.push(name.to_string());
                self.factories.push(factory);
                proof {
                    assert(self.names() =~= old_names.push(name@));
                    lemma_push_new_name(old_names, name@);
                    assert forall|other: Seq<char>| other != name@ && self.registered(other) implies self.factory(other) == old(self).factory(other) by {
                        let k = name_position(old_names, other).unwrap();
                        assert(0 <= k < old_names.len());
                    }
                }
            },
        }
    }

    /// Builds a component with the factory registered under `name`, or
    /// `None` when no factory has that name.
    pub fn create<C>(&self, name: &str, data: &[u8]) -> (r: Option<C>)
        where
            F: Fn(&[u8]) -> C,
        requires
            self.wf(),
            self.registered(name@) ==> self.factory(name@).requires((data,)),
        ensures
            r is Some == self.registered(name@),
            r matches Some(c) ==> self.factory(name@).ensures((data,), c),
    {
        match find_name(&self.names, name) {
            Some(i) => {
                let f = &self.factories[i];
                Some(f(data))
            },
            None => None,
        }
    }

    /// The registered names, in registration order.
    pub fn register_names(&self) -> (r: Vec<String>)
        ensures
            string_views(r@) == self.names(),
    {
        let mut out: Vec<String> = Vec::new();
        let mut i: usize = 0;
        while i < self.names.len()
            invariant
                i <= self.names@.len(),
                out@.len() == i,
                string_views(out@) == self.names().take(i as int),
            decreases self.names@.len() - i,
        {
            let ghost before = out@;
            out.push(self.names[i].clone());
            proof {
                assert forall|k: int| 0 <= k < i + 1 implies #[trigger] string_views(out@)[k] == self.names().take(i + 1)[k] by {
                    if k < i {
                        assert(out@[k] == before[k]);
                        assert(string_views(before)[k] == self.names().take(i as int)[k]);
                    }
                }
                assert(string_views(out@) =~= self.names().take(i + 1));
            }
            i = i + 1;
        }
        proof {
            assert(self.names().take(self.names@.len() as int) =~= self.names());
        }
        out
    }

    /// The number of registered names.
    pub fn registered_count(&self) -> (r: usize)
        ensures
            r == self.names().len(),
    {
        self.names.len()
    }

    /// Whether `name` has a factory.
    pub fn is_registered(&self, name: &str) -> (r: bool)
        requires
            self.wf(),
        ensures
            r == self.registered(name@),
    {
        find_name(&self.names, name).is_some()
    }

    /// Removes every registration.
    pub fn clear(&mut self)
        ensures
            final(self).wf(),
            final(self).names() == Seq::<Seq<char>>::empty(),
    {
        self.names.clear();
        self.factories.clear();
        proof {
            assert(self.names() =~= Seq::<Seq<char>>::empty());
        }
    }

    /// The registered names, borrowed, in registration order.
    pub fn registered_names(&self) -> (r: std::vec::IntoIter<&str>)
        ensures
            str_views(vstd::std_specs::vec::into_iter_elts(r)) == self.names(),
    {
        let mut out: Vec<&str> = Vec::new();
        let mut i: usize = 0;
        while i < self.names.len()
            invariant
                i <= self.names@.len(),
                out@.len() == i,
                str_views(out@) == self.names().take(i as int),
            decreases self.names@.len() - i,
        {
            let ghost before = out@;
            out.push(self.names[i].as_str());
            proof {
                assert forall|k: int| 0 <= k < i + 1 implies #[trigger] str_views(out@)[k] == self.names().take(i + 1)[k] by {
                    if k < i {
                        assert(out@[k] == before[k]);
                        assert(str_views(before)[k] == self.names().take(i as int)[k]);
                    }
                }
                assert(str_views(out@) =~= self.names().take(i + 1));
            }
            i = i + 1;
        }
        proof {
            assert(self.names().take(self.names@.len() as int) =~= self.names());
        }
        out.into_iter()
    }
}

// ── TemplateRegistry ──────────────────────────────────────────────────────────

/// Maps template names to ordered lists of component factories.
///
/// A *template* is a reusable recipe for spawning a fully-equipped entity.
/// Each factory in the list is called once per spawn to produce an independent
/// component instance.  Templates are identified at runtime by a stable `u32` ID.
pub struct TemplateRegistry<F> {
    names: Vec<String>,
    templates: Vec<Vec<F>>,
}

impl<F> TemplateRegistry<F> {
    /// The registered template names; a template's id is its position.
    pub closed spec fn names(&self) -> Seq<Seq<char>> {
        string_views(self.names@)
    }

    /// The factories of the template with id `i`.
    pub closed spec fn template(&self, i: int) -> Seq<F> {
        self.templates@[i]@
    }

    /// No name twice, and one factory list per name.
    pub closed spec fn wf(&self) -> bool {
        &&& distinct_names(self.names())
        &&& self.names@.len() == self.templates@.len()
    }

    pub fn new() -> (r: Self)
        ensures
            r.wf(),
            r.names() == Seq::<Seq<char>>::empty(),
    {
        let r = TemplateRegistry { names: Vec::new(), templates: Vec::new() };
        assert(r.names() =~= Seq::<Seq<char>>::empty());
        r
    }

    /// Registers a template and returns its stable `u32` ID.
    ///
    /// Re-registering the same name replaces the existing template but keeps the ID.
    pub fn register(&mut self, name: &str, components: Vec<F>) -> (r: u32)
        requires
            old(self).wf(),
            old(self).names().len() < u32::MAX,
        ensures
            final(self).wf(),
            final(self).template(r as int) == components@,
            match name_position(old(self).names(), name@) {
                Some(i) => r == i && final(self).names() == old(self).names(),
                None => r == old(self).names().len() && final(self).names() == old(self).names().push(name@),
            },
            forall|j: int| 0 <= j < old(self).names().len() && j != r ==> final(self).template(j) == old(self).template(j),
    {
        let ghost old_names = self.names();
        let ghost comps = components@;
        match find_name(&self.names, name) {
            Some(i) => {
                self.templates.set(i, components);
                i as u32
            },
            None => {
                let id = self.names.len() as u32;
                self.names.push(name.to_string());
                self.templates.push(components);
                proof {
                    assert(self.names() =~= old_names.push(name@));
                    lemma_push_new_name(old_names, name@);
                }
                id
            },
        }
    }

    /// Looks up the ID for a template name.
    pub fn id_of(&self, name: &str) -> (r: Option<u32>)
        requires
            self.wf(),
            self.names().len() <= u32::MAX,
        ensures
            match name_position(self.names(), name@) {
                Some(i) => r == Some(i as u32),
                None => r is None,
            },
    {
        match find_name(&self.names, name) {
            Some(i) => Some(i as u32),
            None => None,
        }
    }

    /// Instantiates all components for the given template ID.
    ///
    /// Returns `None` if the ID is out of range.  Each call produces fresh instances.
    pub fn instantiate<C>(&self, id: u32) -> (r: Option<Vec<C>>)
        where
            F: Fn() -> C,
        requires
            self.wf(),
            id < self.names().len() ==> forall|j: int| 0 <= j < self.template(id as int).len() ==> #[trigger] self.template(id as int)[j].requires(()),
        ensures
            r is Some == (id < self.names().len()),
            r matches Some(v) ==> {
                &&& v@.len() == self.template(id as int).len()
                &&& forall|j: int| 0 <= j < v@.len() ==> #[trigger] self.template(id as int)[j].ensures((), v@[j])
            },
    {
        let i = id as usize;
        if i >= self.templates.len() {
            return None;
        }
        let factories = &self.templates[i];
        assert forall|k: int| 0 <= k < factories@.len() implies #[trigger] factories@[k].requires(()) by {
            assert(factories@[k] == self.template(id as int)[k]);
        }
        let mut out: Vec<C> = Vec::new();
        let mut j: usize = 0;
        while j < factories.len()
            invariant
                j <= factories@.len(),
                factories@ == self.template(id as int),
                out@.len() == j,
                forall|k: int| 0 <= k < factories@.len() ==> #[trigger] factories@[k].requires(()),
                forall|k: int| 0 <= k < j ==> #[trigger] factories@[k].ensures((), out@[k]),
            decreases factories@.len() - j,
        {
            let f = &factories[j];
            let c = f();
            out.push(c);
            j = j + 1;
        }
        Some(out)
    }

    /// Whether a template is registered under `name`.
    pub fn is_registered(&self, name: &str) -> (r: bool)
        requires
            self.wf(),
        ensures
            r == (name_position(self.names(), name@) is Some),
    {
        find_name(&self.names, name).is_some()
    }
}

impl<F> Default for TemplateRegistry<F> {
    fn default() -> (r: Self)
        ensures
            r.wf(),
            r.names() == Seq::<Seq<char>>::empty(),
    {
        Self::new()
    }
}

impl<F> Default for ComponentRegistry<F> {
    fn default() -> (r: Self)
        ensures
            r.wf(),
            r.names() == Seq::<Seq<char>>::empty(),
    {
        Self::new()
    }
}

} // verus!
