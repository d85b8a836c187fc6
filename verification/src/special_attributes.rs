//! Specially supported attributes: hooks that run when an element is created or removed, a
//! node-lifetime effect, and the element's inner HTML.
//!
//! A hook and an effect are each stored with a key. The key decides what happens when one
//! virtual node is patched over another: a different key runs the hook (or re-runs the
//! effect), an equal key does not. Two collections of special attributes therefore compare
//! equal when their keys and inner HTML are equal, whatever hooks they hold.
//!
//! The hooks themselves (`H`) and the effect (`E`) are held as given: this library never
//! runs them, it says which one is set and hands it out to the caller that runs it.

use vstd::prelude::*;
use vstd::std_specs::cmp::PartialEqSpec;

verus! {

/// A hook together with its key.
pub struct KeyAndElementFn<H> {
    key: String,
    func: H,
}

/// A node-lifetime effect together with its key (its dependencies).
pub struct ElementEffect<E> {
    key: String,
    effect: E,
}

/// What an optional string holds, as characters.
pub open spec fn opt_chars(s: Option<String>) -> Option<Seq<char>> {
    match s {
        Some(t) => Some(t@),
        None => None,
    }
}

/// What an optional borrowed string holds, as characters.
pub open spec fn opt_ref_chars(s: Option<&String>) -> Option<Seq<char>> {
    match s {
        Some(t) => Some(t@),
        None => None,
    }
}

/// Specially supported attributes, with hooks of type `H` and an effect of type `E`.
pub struct SpecialAttributes<H, E> {
    on_create_element: Option<KeyAndElementFn<H>>,
    on_remove_element: Option<KeyAndElementFn<H>>,
    element_effect: Option<Box<ElementEffect<E>>>,
    /// Allows setting the innerHTML of an element.
    ///
    /// # Danger
    ///
    /// Be sure to escape all untrusted input to avoid cross site scripting attacks.
    pub dangerous_inner_html: Option<String>,
}

impl<H, E> SpecialAttributes<H, E> {
    /// The on-create hook with its key, if one is set.
    pub closed spec fn create_hook(&self) -> Option<(Seq<char>, H)> {
        match &self.on_create_element {
            Some(k) => Some((k.key@, k.func)),
            None => None,
        }
    }

    /// The on-remove hook with its key, if one is set.
    pub closed spec fn remove_hook(&self) -> Option<(Seq<char>, H)> {
        match &self.on_remove_element {
            Some(k) => Some((k.key@, k.func)),
            None => None,
        }
    }

    /// The element effect with its key, if one is set.
    pub closed spec fn effect(&self) -> Option<(Seq<char>, E)> {
        match &self.element_effect {
            Some(e) => Some((e.key@, e.effect)),
            None => None,
        }
    }

    /// The inner HTML, as characters, if it is set.
    pub closed spec fn inner_html(&self) -> Option<Seq<char>> {
        opt_chars(self.dangerous_inner_html)
    }

    /// The key of an optional keyed value.
    pub open spec fn key_of<T>(x: Option<(Seq<char>, T)>) -> Option<Seq<char>> {
        match x {
            Some(p) => Some(p.0),
            None => None,
        }
    }

    /// No special attribute is set.
    pub open spec fn spec_is_empty(&self) -> bool {
        &&& self.create_hook() is None
        &&& self.remove_hook() is None
        &&& self.effect() is None
        &&& self.inner_html() is None
    }

    /// What equality compares: the keys of the hooks and of the effect, and the inner HTML.
    pub open spec fn keys(&self) -> (
        Option<Seq<char>>,
        Option<Seq<char>>,
        Option<Seq<char>>,
        Option<Seq<char>>,
    ) {
        (
            Self::key_of(self.create_hook()),
            Self::key_of(self.remove_hook()),
            Self::key_of(self.effect()),
            self.inner_html(),
        )
    }

    /// No special attributes.
    pub fn new() -> (r: Self)
        ensures
            r.spec_is_empty(),
    {
        SpecialAttributes {
            on_create_element: None,
            on_remove_element: None,
            element_effect: None,
            dangerous_inner_html: None,
        }
    }

    /// The key for the on create element function.
    pub fn on_create_element_key(&self) -> (r: Option<&String>)
        ensures
            opt_ref_chars(r) == Self::key_of(self.create_hook()),
    {
        match &self.on_create_element {
            Some(k) => Some(&k.key),
            None => None,
        }
    }

    /// Set the on-create hook `func`, with its `key`.
    ///
    /// The key is used when one virtual node is patched over another: if the new node's key
    /// differs from the old node's key, the hook gets called; if they are the same, it does not.
    pub fn set_on_create_element(&mut self, key: String, func: H)
        ensures
            final(self).create_hook() == Some((key@, func)),
            final(self).remove_hook() == old(self).remove_hook(),
            final(self).effect() == old(self).effect(),
            final(self).inner_html() == old(self).inner_html(),
    {
        self.on_create_element = Some(KeyAndElementFn { key, func });
    }

    /// The on-create hook, if one is set: the one that is called when the element is created.
    pub fn on_create_element_hook(&self) -> (r: Option<&H>)
        ensures
            match self.create_hook() {
                Some(p) => r == Some(&p.1),
                None => r is None,
            },
    {
        match &self.on_create_element {
            Some(k) => Some(&k.func),
            None => None,
        }
    }

    /// The key for the on remove element function.
    pub fn on_remove_element_key(&self) -> (r: Option<&String>)
        ensures
            opt_ref_chars(r) == Self::key_of(self.remove_hook()),
    {
        match &self.on_remove_element {
            Some(k) => Some(&k.key),
            None => None,
        }
    }

    /// Set the on-remove hook `func`, with its `key`.
    ///
    /// If the old node's key differs from the new node's key, the hook gets called for the
    /// old element; if the keys are the same, it does not.
    pub fn set_on_remove_element(&mut self, key: String, func: H)
        ensures
            final(self).remove_hook() == Some((key@, func)),
            final(self).create_hook() == old(self).create_hook(),
            final(self).effect() == old(self).effect(),
            final(self).inner_html() == old(self).inner_html(),
    {
        self.on_remove_element = Some(KeyAndElementFn { key, func });
    }

    /// The on-remove hook, if one is set: the one that is called when the element is removed.
    pub fn on_remove_element_hook(&self) -> (r: Option<&H>)
        ensures
            match self.remove_hook() {
                Some(p) => r == Some(&p.1),
                None => r is None,
            },
    {
        match &self.on_remove_element {
            Some(k) => Some(&k.func),
            None => None,
        }
    }

    /// The inner HTML, if it is set.
    pub fn dangerous_inner_html(&self) -> (r: Option<&String>)
        ensures
            opt_ref_chars(r) == self.inner_html(),
    {
        match &self.dangerous_inner_html {
            Some(h) => Some(h),
            None => None,
        }
    }

    /// Set (or, with `None`, clear) the inner HTML.
    ///
    /// # Danger
    ///
    /// Be sure to escape all untrusted input to avoid cross site scripting attacks.
    pub fn set_dangerous_inner_html(&mut self, html: Option<String>)
        ensures
            final(self).inner_html() == opt_chars(html),
            final(self).create_hook() == old(self).create_hook(),
            final(self).remove_hook() == old(self).remove_hook(),
            final(self).effect() == old(self).effect(),
    {
        self.dangerous_inner_html = html;
    }

    /// Whether no special attribute is set (no create/remove hook, no element effect, no
    /// `dangerous_inner_html`).
    pub fn is_empty(&self) -> (r: bool)
        ensures
            r == self.spec_is_empty(),
    {
        self.on_create_element.is_none() && self.on_remove_element.is_none()
            && self.element_effect.is_none() && self.dangerous_inner_html.is_none()
    }

    /// The key (dependencies) for the element effect, if one is set.
    pub fn element_effect_key(&self) -> (r: Option<&String>)
        ensures
            opt_ref_chars(r) == Self::key_of(self.effect()),
    {
        match &self.element_effect {
            Some(e) => Some(&e.key),
            None => None,
        }
    }

    /// Set a node-lifetime effect with its key (dependencies). An equal key on a patched node
    /// leaves the effect and its state untouched; a different key re-runs it.
    pub fn set_element_effect(&mut self, key: String, effect: E)
        ensures
            final(self).effect() == Some((key@, effect)),
            final(self).create_hook() == old(self).create_hook(),
            final(self).remove_hook() == old(self).remove_hook(),
            final(self).inner_html() == old(self).inner_html(),
    {
        self.element_effect = Some(Box::new(ElementEffect { key, effect }));
    }

    /// The element effect, if one is set: the one whose setup and teardown are run.
    pub fn element_effect_hook(&self) -> (r: Option<&E>)
        ensures
            match self.effect() {
                Some(p) => r == Some(&p.1),
                None => r is None,
            },
    {
        match &self.element_effect {
            Some(e) => Some(&e.effect),
            None => None,
        }
    }
}

/// Whether two optional strings hold the same characters.
fn same_opt_string(a: &Option<String>, b: &Option<String>) -> (r: bool)
    ensures
        r == (opt_chars(*a) == opt_chars(*b)),
{
    match (a, b) {
        (Some(x), Some(y)) => *x == *y,
        (None, None) => true,
        _ => false,
    }
}

/// Whether two optional keyed hooks carry the same key.
fn same_hook_key<H>(a: &Option<KeyAndElementFn<H>>, b: &Option<KeyAndElementFn<H>>) -> (r: bool)
    ensures
        r == (match (a, b) {
            (Some(x), Some(y)) => x.key@ == y.key@,
            (None, None) => true,
            _ => false,
        }),
{
    match (a, b) {
        (Some(x), Some(y)) => x.key == y.key,
        (None, None) => true,
        _ => false,
    }
}

impl<H, E> Default for SpecialAttributes<H, E> {
    fn default() -> (r: Self)
        ensures
            r.spec_is_empty(),
    {
        SpecialAttributes::new()
    }
}

impl<H, E> PartialEq for SpecialAttributes<H, E> {
    fn eq(&self, other: &Self) -> (r: bool) {
        let effects_match = match (&self.element_effect, &other.element_effect) {
            (Some(x), Some(y)) => x.key == y.key,
            (None, None) => true,
            _ => false,
        };
        same_hook_key(&self.on_create_element, &other.on_create_element) && same_hook_key(
            &self.on_remove_element,
            &other.on_remove_element,
        ) && effects_match && same_opt_string(
            &self.dangerous_inner_html,
            &other.dangerous_inner_html,
        )
    }
}

impl<H, E> vstd::std_specs::cmp::PartialEqSpecImpl for SpecialAttributes<H, E> {
    open spec fn obeys_eq_spec() -> bool {
        true
    }

    open spec fn eq_spec(&self, other: &SpecialAttributes<H, E>) -> bool {
        self.keys() == other.keys()
    }
}

/// Special attributes compare by keys alone: two collections whose hooks and effect carry
/// the same keys, and whose inner HTML is the same, are equal whatever hooks they hold; and
/// a different key on either hook or on the effect makes them differ.
pub proof fn law_equal_by_keys<H, E>(a: SpecialAttributes<H, E>, b: SpecialAttributes<H, E>)
    ensures
        a.keys() == b.keys() <==> ({
            &&& SpecialAttributes::<H, E>::key_of(a.create_hook())
                == SpecialAttributes::<H, E>::key_of(b.create_hook())
            &&& SpecialAttributes::<H, E>::key_of(a.remove_hook())
                == SpecialAttributes::<H, E>::key_of(b.remove_hook())
            &&& SpecialAttributes::<H, E>::key_of(a.effect()) == SpecialAttributes::<H, E>::key_of(
                b.effect(),
            )
            &&& a.inner_html() == b.inner_html()
        }),
{
}

/// Whether two optional keyed values carry the same key (both absent, or both present with
/// equal keys), whatever values they carry.
pub open spec fn same_key<S, T>(x: Option<(Seq<char>, S)>, y: Option<(Seq<char>, T)>) -> bool {
    match (x, y) {
        (Some(p), Some(q)) => p.0 == q.0,
        (None, None) => true,
        _ => false,
    }
}

/// Two special attributes are equal exactly when their on-create hooks carry the same key
/// (or both are unset), their on-remove hooks carry the same key (or both are unset), their
/// effects carry the same key (or both are unset), and their inner HTML is the same; the hooks
/// and effects themselves are never compared.
pub proof fn law_equal_exactly_when_keys_match<H, E>(
    a: SpecialAttributes<H, E>,
    b: SpecialAttributes<H, E>,
)
    ensures
        a.eq_spec(&b) <==> ({
            &&& same_key(a.create_hook(), b.create_hook())
            &&& same_key(a.remove_hook(), b.remove_hook())
            &&& same_key(a.effect(), b.effect())
            &&& a.inner_html() == b.inner_html()
        }),
{
}

/// Setting a hook or an effect makes the special attributes non-empty.
pub proof fn law_set_is_not_empty<H, E>(a: SpecialAttributes<H, E>)
    ensures
        a.create_hook() is Some ==> !a.spec_is_empty(),
        a.remove_hook() is Some ==> !a.spec_is_empty(),
        a.effect() is Some ==> !a.spec_is_empty(),
        a.inner_html() is Some ==> !a.spec_is_empty(),
{
}

} // verus!
