//! The WSDL/XSD parser: a stack of parse states driven by the significant
//! events of one or more documents, resolving `import`/`include`
//! references through the caller-supplied document set.

use vstd::prelude::*;

use crate::error::Error;
use crate::event::{attrs_view, spec_local_of, spec_prefix_of, split_namespaced_name, XmlEvent};
use crate::types::{
    spec_add_or_get, Binding, BindingOperation, Definition, Field, FieldKind, Message,
    NamespacedName, Namespaces, NameView, Operation, Port, PortType, Service, Type, TypeKind,
};

verus! {

// ---------------------------------------------------------------------
// Attribute lookup
// ---------------------------------------------------------------------
/// The value of the first attribute whose key equals `name`.
pub open spec fn spec_get_attr(attrs: Seq<(Seq<char>, Seq<char>)>, name: Seq<char>) -> Option<
    Seq<char>,
>
    decreases attrs.len(),
{
    if attrs.len() == 0 {
        None
    } else if attrs[0].0 == name {
        Some(attrs[0].1)
    } else {
        spec_get_attr(attrs.drop_first(), name)
    }
}

/// Looks an attribute up by its full key.
pub fn get_attribute(attrs: &Vec<(String, String)>, name: &str) -> (r: Option<String>)
    ensures
        match r {
            Some(v) => spec_get_attr(attrs_view(attrs@), name@) == Some(v@),
            None => spec_get_attr(attrs_view(attrs@), name@) is None,
        },
{
    proof {
        lemma_get_attr(attrs_view(attrs@), name@);
    }
    let n = attrs.len();
    let mut i: usize = 0;
    #[verifier::loop_isolation(false)]
    while i < n
        invariant
            0 <= i <= n,
            forall|k: int| 0 <= k < i ==> (#[trigger] attrs_view(attrs@)[k]).0 != name@,
        decreases n - i,
    {
        proof {
            assert(attrs_view(attrs@)[i as int] == (attrs@[i as int].0@, attrs@[i as int].1@));
        }
        if crate::num::str_eq(attrs[i].0.as_str(), name) {
            return Some(attrs[i].1.clone());
        }
        i = i + 1;
    }
    None
}

/// `spec_get_attr` finds the first match, and `None` means no match.
proof fn lemma_get_attr(attrs: Seq<(Seq<char>, Seq<char>)>, name: Seq<char>)
    ensures
        match spec_get_attr(attrs, name) {
            Some(v) => exists|i: int|
                0 <= i < attrs.len() && (#[trigger] attrs[i]).0 == name && attrs[i].1 == v
                    && forall|k: int| 0 <= k < i ==> (#[trigger] attrs[k]).0 != name,
            None => forall|k: int| 0 <= k < attrs.len() ==> (#[trigger] attrs[k]).0 != name,
        },
    decreases attrs.len(),
{
    if attrs.len() > 0 && attrs[0].0 != name {
        let t = attrs.drop_first();
        lemma_get_attr(t, name);
        match spec_get_attr(t, name) {
            Some(v) => {
                let j = choose|i: int|
                    0 <= i < t.len() && (#[trigger] t[i]).0 == name && t[i].1 == v && forall|k: int|
                        0 <= k < i ==> (#[trigger] t[k]).0 != name;
                assert(attrs[j + 1] == t[j]);
                assert forall|k: int| 0 <= k < j + 1 implies (#[trigger] attrs[k]).0 != name by {
                    if k > 0 {
                        assert(attrs[k] == t[k - 1]);
                    }
                }
            },
            None => {
                assert forall|k: int| 0 <= k < attrs.len() implies (#[trigger] attrs[k]).0
                    != name by {
                    if k > 0 {
                        assert(attrs[k] == t[k - 1]);
                    }
                }
            },
        }
    }
}

// ---------------------------------------------------------------------
// Namespace context
// ---------------------------------------------------------------------
/// The ghost value of an optional string.
pub open spec fn opt_view(o: Option<String>) -> Option<Seq<char>> {
    match o {
        Some(s) => Some(s@),
        None => None,
    }
}

/// The ghost value of a [`CurrentNamespaces`].
pub struct CnView {
    pub target: Seq<Seq<char>>,
    pub prefixes: Seq<(Option<Seq<char>>, Seq<char>)>,
}

/// The namespace context in effect while parsing: a stack of target
/// namespaces (pushed on `definitions` and each `schema`) and a prefix
/// map updated from every `xmlns` declaration encountered.
#[derive(Debug)]
pub struct CurrentNamespaces {
    target: Vec<String>,
    namespaces: Vec<(Option<String>, String)>,
}

/// The URI bound to `prefix`: the first binding in the map.
pub open spec fn spec_lookup_prefix(
    s: Seq<(Option<Seq<char>>, Seq<char>)>,
    prefix: Option<Seq<char>>,
) -> Option<Seq<char>>
    decreases s.len(),
{
    if s.len() == 0 {
        None
    } else if s[0].0 == prefix {
        Some(s[0].1)
    } else {
        spec_lookup_prefix(s.drop_first(), prefix)
    }
}

/// What binding `prefix` to `uri` does to the map: the first binding of
/// `prefix` is replaced, or a new one is appended.
pub open spec fn spec_add_prefix(
    s: Seq<(Option<Seq<char>>, Seq<char>)>,
    prefix: Option<Seq<char>>,
    uri: Seq<char>,
) -> Seq<(Option<Seq<char>>, Seq<char>)>
    decreases s.len(),
{
    if s.len() == 0 {
        seq![(prefix, uri)]
    } else if s[0].0 == prefix {
        seq![(prefix, uri)] + s.drop_first()
    } else {
        seq![s[0]] + spec_add_prefix(s.drop_first(), prefix, uri)
    }
}

/// After binding a prefix, looking it up finds the new URI, and other
/// prefixes keep their bindings.
pub proof fn lemma_add_prefix_lookup(
    s: Seq<(Option<Seq<char>>, Seq<char>)>,
    prefix: Option<Seq<char>>,
    uri: Seq<char>,
    other: Option<Seq<char>>,
)
    ensures
        spec_lookup_prefix(spec_add_prefix(s, prefix, uri), prefix) == Some(uri),
        other != prefix ==> spec_lookup_prefix(spec_add_prefix(s, prefix, uri), other)
            == spec_lookup_prefix(s, other),
    decreases s.len(),
{
    let s2 = spec_add_prefix(s, prefix, uri);
    if s.len() == 0 {
        assert(s2[0] == (prefix, uri));
        assert(s2.drop_first() =~= Seq::<(Option<Seq<char>>, Seq<char>)>::empty());
        assert(spec_lookup_prefix(s2, prefix) == Some(uri));
        if other != prefix {
            assert(spec_lookup_prefix(s2, other) == spec_lookup_prefix(s2.drop_first(), other));
        }
    } else if s[0].0 == prefix {
        assert(s2[0] == (prefix, uri));
        assert(s2.drop_first() =~= s.drop_first());
        assert(spec_lookup_prefix(s2, prefix) == Some(uri));
        if other != prefix {
            if s[0].0 == other {
                assert(false);
            } else {
                assert(spec_lookup_prefix(s2, other) == spec_lookup_prefix(s.drop_first(), other));
                assert(spec_lookup_prefix(s, other) == spec_lookup_prefix(s.drop_first(), other));
            }
        }
    } else {
        lemma_add_prefix_lookup(s.drop_first(), prefix, uri, other);
        assert(s2[0] == s[0]);
        assert(s2.drop_first() =~= spec_add_prefix(s.drop_first(), prefix, uri));
        assert(spec_lookup_prefix(s2, prefix) == spec_lookup_prefix(s2.drop_first(), prefix));
        if other != prefix {
            if s[0].0 == other {
                assert(spec_lookup_prefix(s2, other) == Some(s[0].1));
                assert(spec_lookup_prefix(s, other) == Some(s[0].1));
            } else {
                assert(spec_lookup_prefix(s2, other) == spec_lookup_prefix(s2.drop_first(), other));
                assert(spec_lookup_prefix(s, other) == spec_lookup_prefix(s.drop_first(), other));
            }
        }
    }
}

impl View for CurrentNamespaces {
    type V = CnView;

    closed spec fn view(&self) -> CnView {
        CnView {
            target: self.target.deep_view(),
            prefixes: self.namespaces@.map_values(|p: (Option<String>, String)| (opt_view(p.0), p.1@)),
        }
    }
}

/// Whether two optional prefixes are the same.
fn opt_name_eq(a: &Option<String>, b: &Option<String>) -> (r: bool)
    ensures
        r == (match (a, b) {
            (Some(x), Some(y)) => x@ == y@,
            (None, None) => true,
            _ => false,
        }),
{
    match (a, b) {
        (Some(x), Some(y)) => crate::num::str_eq(x.as_str(), y.as_str()),
        (None, None) => true,
        _ => false,
    }
}

impl CurrentNamespaces {
    /// An empty context: no target namespace, no prefixes.
    pub fn new() -> (r: Self)
        ensures
            r@.target =~= Seq::<Seq<char>>::empty(),
            r@.prefixes =~= Seq::<(Option<Seq<char>>, Seq<char>)>::empty(),
    {
        let r = CurrentNamespaces { target: Vec::new(), namespaces: Vec::new() };
        proof {
            assert(r@.target =~= Seq::<Seq<char>>::empty());
            assert(r@.prefixes =~= Seq::<(Option<Seq<char>>, Seq<char>)>::empty());
        }
        r
    }

    /// A copy of this context with `target` as the innermost target
    /// namespace.
    pub fn with_target(&self, target: String) -> (r: Self)
        ensures
            r@.target =~= self@.target.push(target@),
            r@.prefixes == self@.prefixes,
    {
        let mut c = self.clone();
        c.push_target_namespace(target);
        c
    }

    /// Makes `namespace` the innermost target namespace.
    pub fn push_target_namespace(&mut self, namespace: String)
        ensures
            final(self)@.target =~= old(self)@.target.push(namespace@),
            final(self)@.prefixes == old(self)@.prefixes,
    {
        self.target.push(namespace);
        proof {
            assert(self@.target =~= old(self)@.target.push(namespace@));
        }
    }

    /// Leaves the innermost target namespace.
    pub fn pop_target_namespace(&mut self)
        ensures
            old(self)@.target.len() > 0 ==> final(self)@.target =~= old(self)@.target.drop_last(),
            old(self)@.target.len() == 0 ==> final(self)@.target =~= old(self)@.target,
            final(self)@.prefixes == old(self)@.prefixes,
    {
        if self.target.len() > 0 {
            let _ = self.target.pop();
            proof {
                assert(self@.target =~= old(self)@.target.drop_last());
            }
        } else {
            proof {
                assert(self@.target =~= old(self)@.target);
            }
        }
    }

    /// Binds `prefix` to `namespace`, replacing any earlier binding.
    pub fn add_namespace_prefix(&mut self, prefix: Option<String>, namespace: &str)
        ensures
            final(self)@.prefixes == spec_add_prefix(
                old(self)@.prefixes,
                opt_view(prefix),
                namespace@,
            ),
            final(self)@.target == old(self)@.target,
    {
        let n = self.namespaces.len();
        let mut i: usize = 0;
        #[verifier::loop_isolation(false)]
        while i < n
            invariant
                0 <= i <= n,
                n == self.namespaces@.len(),
                *self == *old(self),
                forall|k: int| 0 <= k < i ==> opt_view(#[trigger] self.namespaces@[k].0)
                    != opt_view(prefix),
            decreases n - i,
        {
            if opt_name_eq(&self.namespaces[i].0, &prefix) {
                proof {
                    assert forall|k: int| 0 <= k < i implies (
                    #[trigger] old(self)@.prefixes[k]).0 != opt_view(prefix) by {
                        assert(old(self)@.prefixes[k] == (
                            opt_view(self.namespaces@[k].0),
                            self.namespaces@[k].1@,
                        ));
                    }
                    assert(old(self)@.prefixes[i as int] == (
                        opt_view(self.namespaces@[i as int].0),
                        self.namespaces@[i as int].1@,
                    ));
                    lemma_add_prefix_replace(
                        old(self)@.prefixes,
                        opt_view(prefix),
                        namespace@,
                        i as int,
                    );
                }
                self.namespaces.set(i, (prefix, namespace.to_owned()));
                proof {
                    assert(self@.prefixes =~= old(self)@.prefixes.update(
                        i as int,
                        (opt_view(prefix), namespace@),
                    ));
                }
                return ;
            }
            i = i + 1;
        }
        proof {
            assert forall|k: int| 0 <= k < old(self)@.prefixes.len() implies (
            #[trigger] old(self)@.prefixes[k]).0 != opt_view(prefix) by {
                assert(old(self)@.prefixes[k] == (
                    opt_view(self.namespaces@[k].0),
                    self.namespaces@[k].1@,
                ));
            }
            lemma_add_prefix_append(old(self)@.prefixes, opt_view(prefix), namespace@);
        }
        self.namespaces.push((prefix, namespace.to_owned()));
        proof {
            assert(self@.prefixes =~= old(self)@.prefixes.push((opt_view(prefix), namespace@)));
        }
    }

    /// Qualifies `name` with the innermost target namespace; fails when no
    /// target namespace is in effect.
    pub fn target_namespaced(&self, namespaces: &mut Namespaces, name: String) -> (r: Result<
        NamespacedName,
        Error,
    >)
        ensures
            match r {
                Ok(n) => self@.target.len() > 0 && ({
                    let (nss2, i) = spec_add_or_get(old(namespaces)@, self@.target.last());
                    final(namespaces)@ == nss2 && n@ == (NameView { ns: i, local: name@ })
                }),
                Err(e) => self@.target.len() == 0 && (e matches Error::StructuralError)
                    && final(namespaces)@ == old(namespaces)@,
            },
    {
        if self.target.len() > 0 {
            let target = &self.target[self.target.len() - 1];
            proof {
                assert(target@ == self@.target.last());
            }
            Ok(NamespacedName::new(namespaces, target.as_str(), name))
        } else {
            Err(Error::StructuralError)
        }
    }

    /// Qualifies `name` with the namespace bound to `prefix`; fails when
    /// the prefix is unknown.
    pub fn resolved_prefix(
        &self,
        namespaces: &mut Namespaces,
        prefix: Option<String>,
        name: String,
    ) -> (r: Result<NamespacedName, Error>)
        ensures
            match r {
                Ok(n) => spec_lookup_prefix(self@.prefixes, opt_view(prefix)) matches Some(uri)
                    && ({
                    let (nss2, i) = spec_add_or_get(old(namespaces)@, uri);
                    final(namespaces)@ == nss2 && n@ == (NameView { ns: i, local: name@ })
                }),
                Err(e) => spec_lookup_prefix(self@.prefixes, opt_view(prefix)) is None && (
                e matches Error::StructuralError) && final(namespaces)@ == old(namespaces)@,
            },
    {
        proof {
            lemma_lookup_prefix(self@.prefixes, opt_view(prefix));
        }
        let n = self.namespaces.len();
        let mut i: usize = 0;
        #[verifier::loop_isolation(false)]
        while i < n
            invariant
                0 <= i <= n,
                n == self.namespaces@.len(),
                namespaces@ == old(namespaces)@,
                forall|k: int| 0 <= k < i ==> opt_view(#[trigger] self.namespaces@[k].0)
                    != opt_view(prefix),
            decreases n - i,
        {
            if opt_name_eq(&self.namespaces[i].0, &prefix) {
                proof {
                    assert forall|k: int| 0 <= k < i implies (#[trigger] self@.prefixes[k]).0
                        != opt_view(prefix) by {
                        assert(self@.prefixes[k] == (
                            opt_view(self.namespaces@[k].0),
                            self.namespaces@[k].1@,
                        ));
                    }
                    assert(self@.prefixes[i as int] == (
                        opt_view(self.namespaces@[i as int].0),
                        self.namespaces@[i as int].1@,
                    ));
                    assert(spec_lookup_prefix(self@.prefixes, opt_view(prefix)) == Some(
                        self.namespaces@[i as int].1@,
                    ));
                }
                let uri = &self.namespaces[i].1;
                return Ok(NamespacedName::new(namespaces, uri.as_str(), name));
            }
            i = i + 1;
        }
        proof {
            assert forall|k: int| 0 <= k < self@.prefixes.len() implies (
            #[trigger] self@.prefixes[k]).0 != opt_view(prefix) by {
                assert(self@.prefixes[k] == (
                    opt_view(self.namespaces@[k].0),
                    self.namespaces@[k].1@,
                ));
            }
        }
        Err(Error::StructuralError)
    }
}

/// `spec_lookup_prefix` finds the first binding, and `None` means none.
proof fn lemma_lookup_prefix(s: Seq<(Option<Seq<char>>, Seq<char>)>, prefix: Option<Seq<char>>)
    ensures
        match spec_lookup_prefix(s, prefix) {
            Some(v) => exists|i: int|
                0 <= i < s.len() && (#[trigger] s[i]).0 == prefix && s[i].1 == v && forall|k: int|
                    0 <= k < i ==> (#[trigger] s[k]).0 != prefix,
            None => forall|k: int| 0 <= k < s.len() ==> (#[trigger] s[k]).0 != prefix,
        },
    decreases s.len(),
{
    if s.len() > 0 && s[0].0 != prefix {
        let t = s.drop_first();
        lemma_lookup_prefix(t, prefix);
        match spec_lookup_prefix(t, prefix) {
            Some(v) => {
                let j = choose|i: int|
                    0 <= i < t.len() && (#[trigger] t[i]).0 == prefix && t[i].1 == v && forall|
                        k: int,
                    | 0 <= k < i ==> (#[trigger] t[k]).0 != prefix;
                assert(s[j + 1] == t[j]);
                assert forall|k: int| 0 <= k < j + 1 implies (#[trigger] s[k]).0 != prefix by {
                    if k > 0 {
                        assert(s[k] == t[k - 1]);
                    }
                }
            },
            None => {
                assert forall|k: int| 0 <= k < s.len() implies (#[trigger] s[k]).0 != prefix by {
                    if k > 0 {
                        assert(s[k] == t[k - 1]);
                    }
                }
            },
        }
    }
}

/// Replacing the first binding of a prefix is what `spec_add_prefix`
/// does when the prefix is bound at `i`.
proof fn lemma_add_prefix_replace(
    s: Seq<(Option<Seq<char>>, Seq<char>)>,
    prefix: Option<Seq<char>>,
    uri: Seq<char>,
    i: int,
)
    requires
        0 <= i < s.len(),
        s[i].0 == prefix,
        forall|k: int| 0 <= k < i ==> (#[trigger] s[k]).0 != prefix,
    ensures
        spec_add_prefix(s, prefix, uri) == s.update(i, (prefix, uri)),
    decreases s.len(),
{
    if i == 0 {
        assert(spec_add_prefix(s, prefix, uri) =~= s.update(0, (prefix, uri)));
    } else {
        let t = s.drop_first();
        assert(forall|k: int| 0 <= k < i - 1 ==> #[trigger] t[k] == s[k + 1]);
        lemma_add_prefix_replace(t, prefix, uri, i - 1);
        assert(spec_add_prefix(s, prefix, uri) =~= s.update(i, (prefix, uri)));
    }
}

/// Appending a new binding is what `spec_add_prefix` does when the prefix
/// is unbound.
proof fn lemma_add_prefix_append(
    s: Seq<(Option<Seq<char>>, Seq<char>)>,
    prefix: Option<Seq<char>>,
    uri: Seq<char>,
)
    requires
        forall|k: int| 0 <= k < s.len() ==> (#[trigger] s[k]).0 != prefix,
    ensures
        spec_add_prefix(s, prefix, uri) == s.push((prefix, uri)),
    decreases s.len(),
{
    if s.len() == 0 {
        assert(spec_add_prefix(s, prefix, uri) =~= s.push((prefix, uri)));
    } else {
        let t = s.drop_first();
        assert(forall|k: int| 0 <= k < t.len() ==> #[trigger] t[k] == s[k + 1]);
        lemma_add_prefix_append(t, prefix, uri);
        assert(spec_add_prefix(s, prefix, uri) =~= s.push((prefix, uri)));
    }
}

// ---------------------------------------------------------------------
// Parse states
// ---------------------------------------------------------------------
/// One frame of the parser's stack: the element being assembled, with
/// everything collected for it so far.
#[derive(Debug)]
pub enum ParseState {
    Definitions,
    Types,
    Schema,
    Element { name: String, kind: Option<TypeKind> },
    ComplexType { name: Option<String>, kind: Option<TypeKind> },
    ComplexContent { fields: Vec<Field> },
    ComplexExtension { fields: Vec<Field> },
    SimpleContent { ty: Option<NamespacedName> },
    SimpleExtension { ty: NamespacedName },
    Sequence { fields: Vec<Field> },
    SequenceElement { name: String, ty: Option<NamespacedName>, inner: Option<TypeKind> },
    SimpleType { name: String, ty: Option<NamespacedName> },
    Restriction { ty: NamespacedName },
    Message { name: String, parts: Vec<Field> },
    Part { name: String, element: NamespacedName },
    PortType { name: String, operations: Vec<Operation> },
    Operation {
        name: String,
        documentation: Option<String>,
        input: Option<NamespacedName>,
        output: Option<NamespacedName>,
    },
    Documentation { text: Option<String> },
    Input { message: NamespacedName },
    Output { message: NamespacedName },
    Binding {
        name: String,
        ty: NamespacedName,
        transport: Option<String>,
        operations: Vec<BindingOperation>,
    },
    Transport { transport: String },
    BindingOperation {
        name: String,
        action: Option<String>,
        style: Option<String>,
        input: Option<String>,
        output: Option<String>,
    },
    OperationAction { action: String, style: String },
    BindingInput { body: Option<String> },
    BindingOutput { body: Option<String> },
    BindingBody { body: String },
    Service { name: String, ports: Vec<Port> },
    Port { name: String, binding: NamespacedName, address: Option<String> },
    Address { location: String },
    Import { namespace: Option<String> },
    Other { name: String },
}

/// The ghost value of a [`ParseState`].
pub enum PsView {
    Definitions,
    Types,
    Schema,
    Element { name: Seq<char>, kind: Option<crate::types::TypeKindView> },
    ComplexType { name: Option<Seq<char>>, kind: Option<crate::types::TypeKindView> },
    ComplexContent { fields: Seq<crate::types::FieldView> },
    ComplexExtension { fields: Seq<crate::types::FieldView> },
    SimpleContent { ty: Option<NameView> },
    SimpleExtension { ty: NameView },
    Sequence { fields: Seq<crate::types::FieldView> },
    SequenceElement {
        name: Seq<char>,
        ty: Option<NameView>,
        inner: Option<crate::types::TypeKindView>,
    },
    SimpleType { name: Seq<char>, ty: Option<NameView> },
    Restriction { ty: NameView },
    Message { name: Seq<char>, parts: Seq<crate::types::FieldView> },
    Part { name: Seq<char>, element: NameView },
    PortType { name: Seq<char>, operations: Seq<crate::types::OperationView> },
    Operation {
        name: Seq<char>,
        documentation: Option<Seq<char>>,
        input: Option<NameView>,
        output: Option<NameView>,
    },
    Documentation { text: Option<Seq<char>> },
    Input { message: NameView },
    Output { message: NameView },
    Binding {
        name: Seq<char>,
        ty: NameView,
        transport: Option<Seq<char>>,
        operations: Seq<crate::types::BindingOperationView>,
    },
    Transport { transport: Seq<char> },
    BindingOperation {
        name: Seq<char>,
        action: Option<Seq<char>>,
        style: Option<Seq<char>>,
        input: Option<Seq<char>>,
        output: Option<Seq<char>>,
    },
    OperationAction { action: Seq<char>, style: Seq<char> },
    BindingInput { body: Option<Seq<char>> },
    BindingOutput { body: Option<Seq<char>> },
    BindingBody { body: Seq<char> },
    Service { name: Seq<char>, ports: Seq<crate::types::PortView> },
    Port { name: Seq<char>, binding: NameView, address: Option<Seq<char>> },
    Address { location: Seq<char> },
    Import { namespace: Option<Seq<char>> },
    Other { name: Seq<char> },
}

/// The ghost value of an optional namespaced name.
pub open spec fn opt_name_view(o: Option<NamespacedName>) -> Option<NameView> {
    match o {
        Some(n) => Some(n@),
        None => None,
    }
}

/// The ghost value of an optional type kind.
pub open spec fn opt_kind_view(o: Option<TypeKind>) -> Option<crate::types::TypeKindView> {
    match o {
        Some(k) => Some(k@),
        None => None,
    }
}

impl View for ParseState {
    type V = PsView;

    open spec fn view(&self) -> PsView {
        match self {
            ParseState::Definitions => PsView::Definitions,
            ParseState::Types => PsView::Types,
            ParseState::Schema => PsView::Schema,
            ParseState::Element { name, kind } => PsView::Element {
                name: name@,
                kind: opt_kind_view(*kind),
            },
            ParseState::ComplexType { name, kind } => PsView::ComplexType {
                name: opt_view(*name),
                kind: opt_kind_view(*kind),
            },
            ParseState::ComplexContent { fields } => PsView::ComplexContent {
                fields: crate::types::view_fields(fields@),
            },
            ParseState::ComplexExtension { fields } => PsView::ComplexExtension {
                fields: crate::types::view_fields(fields@),
            },
            ParseState::SimpleContent { ty } => PsView::SimpleContent { ty: opt_name_view(*ty) },
            ParseState::SimpleExtension { ty } => PsView::SimpleExtension { ty: ty@ },
            ParseState::Sequence { fields } => PsView::Sequence {
                fields: crate::types::view_fields(fields@),
            },
            ParseState::SequenceElement { name, ty, inner } => PsView::SequenceElement {
                name: name@,
                ty: opt_name_view(*ty),
                inner: opt_kind_view(*inner),
            },
            ParseState::SimpleType { name, ty } => PsView::SimpleType {
                name: name@,
                ty: opt_name_view(*ty),
            },
            ParseState::Restriction { ty } => PsView::Restriction { ty: ty@ },
            ParseState::Message { name, parts } => PsView::Message {
                name: name@,
                parts: crate::types::view_fields(parts@),
            },
            ParseState::Part { name, element } => PsView::Part { name: name@, element: element@ },
            ParseState::PortType { name, operations } => PsView::PortType {
                name: name@,
                operations: crate::types::seq_view(operations@),
            },
            ParseState::Operation { name, documentation, input, output } => PsView::Operation {
                name: name@,
                documentation: opt_view(*documentation),
                input: opt_name_view(*input),
                output: opt_name_view(*output),
            },
            ParseState::Documentation { text } => PsView::Documentation { text: opt_view(*text) },
            ParseState::Input { message } => PsView::Input { message: message@ },
            ParseState::Output { message } => PsView::Output { message: message@ },
            ParseState::Binding { name, ty, transport, operations } => PsView::Binding {
                name: name@,
                ty: ty@,
                transport: opt_view(*transport),
                operations: crate::types::seq_view(operations@),
            },
            ParseState::Transport { transport } => PsView::Transport { transport: transport@ },
            ParseState::BindingOperation { name, action, style, input, output } => {
                PsView::BindingOperation {
                    name: name@,
                    action: opt_view(*action),
                    style: opt_view(*style),
                    input: opt_view(*input),
                    output: opt_view(*output),
                }
            },
            ParseState::OperationAction { action, style } => PsView::OperationAction {
                action: action@,
                style: style@,
            },
            ParseState::BindingInput { body } => PsView::BindingInput { body: opt_view(*body) },
            ParseState::BindingOutput { body } => PsView::BindingOutput { body: opt_view(*body) },
            ParseState::BindingBody { body } => PsView::BindingBody { body: body@ },
            ParseState::Service { name, ports } => PsView::Service {
                name: name@,
                ports: crate::types::seq_view(ports@),
            },
            ParseState::Port { name, binding, address } => PsView::Port {
                name: name@,
                binding: binding@,
                address: opt_view(*address),
            },
            ParseState::Address { location } => PsView::Address { location: location@ },
            ParseState::Import { namespace } => PsView::Import { namespace: opt_view(*namespace) },
            ParseState::Other { name } => PsView::Other { name: name@ },
        }
    }
}

// ---------------------------------------------------------------------
// URL handling, behind the `url` crate
// ---------------------------------------------------------------------
/// What `url::Url::join` makes of a base URL and a reference: the
/// resolved absolute URL, or nothing when either does not parse.  A pure
/// function of the two strings.
pub uninterp spec fn join_of(base: Seq<char>, reference: Seq<char>) -> Option<Seq<char>>;

/// Relies on `url::Url::parse` and `url::Url::join`: resolves `reference`
/// against `base` and returns the absolute URL as a string.
#[verifier::external_body]
fn join_url(base: &str, reference: &str) -> (r: Result<String, Error>)
    ensures
        match r {
            Ok(u) => join_of(base@, reference@) == Some(u@),
            Err(e) => join_of(base@, reference@) is None && (e matches Error::UrlParseError),
        },
{
    match url::Url::parse(base) {
        Ok(b) => match b.join(reference) {
            Ok(u) => Ok(String::from(u)),
            Err(_) => Err(Error::UrlParseError),
        },
        Err(_) => Err(Error::UrlParseError),
    }
}

/// What `url::Url::parse` reports as a URL's scheme, or nothing when the
/// string does not parse as an absolute URL.  A pure function of the
/// string.
pub uninterp spec fn scheme_of(u: Seq<char>) -> Option<Seq<char>>;

/// Relies on `url::Url::parse` and `url::Url::scheme`.
#[verifier::external_body]
fn url_scheme(u: &str) -> (r: Result<String, Error>)
    ensures
        match r {
            Ok(s) => scheme_of(u@) == Some(s@),
            Err(e) => scheme_of(u@) is None && (e matches Error::UrlParseError),
        },
{
    match url::Url::parse(u) {
        Ok(p) => Ok(p.scheme().to_owned()),
        Err(_) => Err(Error::UrlParseError),
    }
}

impl Clone for CurrentNamespaces {
    fn clone(&self) -> (r: Self)
        ensures
            r@ == self@,
    {
        let mut target: Vec<String> = Vec::new();
        let mut i: usize = 0;
        #[verifier::loop_isolation(false)]
        while i < self.target.len()
            invariant
                0 <= i <= self.target.len(),
                target@.len() == i,
                forall|k: int| 0 <= k < i ==> (#[trigger] target@[k])@ == self.target@[k]@,
            decreases self.target.len() - i,
        {
            target.push(self.target[i].clone());
            i = i + 1;
        }
        let mut namespaces: Vec<(Option<String>, String)> = Vec::new();
        let mut j: usize = 0;
        #[verifier::loop_isolation(false)]
        while j < self.namespaces.len()
            invariant
                0 <= j <= self.namespaces.len(),
                namespaces@.len() == j,
                forall|k: int| 0 <= k < j ==> opt_view(#[trigger] namespaces@[k].0) == opt_view(
                    self.namespaces@[k].0,
                ) && namespaces@[k].1@ == self.namespaces@[k].1@,
            decreases self.namespaces.len() - j,
        {
            let p = match &self.namespaces[j].0 {
                Some(s) => Some(s.clone()),
                None => None,
            };
            namespaces.push((p, self.namespaces[j].1.clone()));
            j = j + 1;
        }
        let r = CurrentNamespaces { target, namespaces };
        proof {
            assert forall|k: int| 0 <= k < r@.target.len() implies #[trigger] r@.target[k]
                == self@.target[k] by {
                assert(r.target@[k]@ == self.target@[k]@);
            }
            assert(r@.target =~= self@.target);
            assert forall|k: int| 0 <= k < r@.prefixes.len() implies #[trigger] r@.prefixes[k]
                == self@.prefixes[k] by {
                assert(r@.prefixes[k] == (opt_view(r.namespaces@[k].0), r.namespaces@[k].1@));
                assert(self@.prefixes[k] == (
                    opt_view(self.namespaces@[k].0),
                    self.namespaces@[k].1@,
                ));
            }
            assert(r@.prefixes =~= self@.prefixes);
        }
        r
    }
}

// ---------------------------------------------------------------------
// The parser
// ---------------------------------------------------------------------
/// The ghost value of a [`Parser`].
pub struct ParserView {
    pub root: Seq<char>,
    pub definition: crate::types::DefinitionView,
    pub namespaces: Seq<Seq<char>>,
    pub current: CnView,
}

/// The parser: the root URL imports resolve against, the definition being
/// assembled, the interning table, and the namespace context.
#[derive(Debug)]
pub struct Parser {
    root: String,
    definition: Definition,
    namespaces: Namespaces,
    current_namespaces: CurrentNamespaces,
}

impl View for Parser {
    type V = ParserView;

    closed spec fn view(&self) -> ParserView {
        ParserView {
            root: self.root@,
            definition: self.definition@,
            namespaces: self.namespaces@,
            current: self.current_namespaces@,
        }
    }
}

/// A reference to another document found while parsing, to be parsed
/// inline before the current document resumes.
pub struct ImportRequest {
    pub location: String,
}

/// The ghost value of an optional parse state.
pub open spec fn view_opt_ps(o: Option<ParseState>) -> Option<PsView> {
    match o {
        Some(s) => Some(s@),
        None => None,
    }
}

/// The ghost value of an optional import request.
pub open spec fn view_opt_loc(o: Option<ImportRequest>) -> Option<Seq<char>> {
    match o {
        Some(i) => Some(i.location@),
        None => None,
    }
}

/// Resolving a qualified name: `tns:` resolves to the innermost target
/// namespace, any other prefix (or none) through the prefix map; the URI
/// is interned.
pub open spec fn spec_resolve(cur: CnView, nss: Seq<Seq<char>>, q: Seq<char>) -> Result<
    (NameView, Seq<Seq<char>>),
    (),
> {
    let prefix = spec_prefix_of(q);
    let local = spec_local_of(q);
    if prefix == Some("tns"@) {
        if cur.target.len() == 0 {
            Err(())
        } else {
            let (nss2, i) = spec_add_or_get(nss, cur.target.last());
            Ok((NameView { ns: i, local }, nss2))
        }
    } else {
        match spec_lookup_prefix(cur.prefixes, prefix) {
            Some(uri) => {
                let (nss2, i) = spec_add_or_get(nss, uri);
                Ok((NameView { ns: i, local }, nss2))
            },
            None => Err(()),
        }
    }
}

/// Resolution does not depend on how a prefix is spelled, only on what it
/// is bound to: two qualified names with the same local part resolve to
/// the same name, against the same table, in two contexts with the same
/// target-namespace stack, whenever both are `tns`-qualified or both
/// prefixes are bound to the same URI.
pub proof fn lemma_resolution_ignores_prefix_spelling(
    c1: CnView,
    c2: CnView,
    nss: Seq<Seq<char>>,
    q1: Seq<char>,
    q2: Seq<char>,
)
    requires
        c1.target == c2.target,
        spec_local_of(q1) == spec_local_of(q2),
        ({
            let p1 = spec_prefix_of(q1);
            let p2 = spec_prefix_of(q2);
            (p1 == Some("tns"@) && p2 == Some("tns"@)) || (p1 != Some("tns"@) && p2 != Some(
                "tns"@,
            ) && spec_lookup_prefix(c1.prefixes, p1) == spec_lookup_prefix(c2.prefixes, p2))
        }),
    ensures
        spec_resolve(c1, nss, q1) == spec_resolve(c2, nss, q2),
{
}

/// What recording the `xmlns` declarations of an element's attributes
/// does to the prefix map, first to last.
pub open spec fn spec_scan_xmlns(
    prefixes: Seq<(Option<Seq<char>>, Seq<char>)>,
    attrs: Seq<(Seq<char>, Seq<char>)>,
) -> Seq<(Option<Seq<char>>, Seq<char>)>
    decreases attrs.len(),
{
    if attrs.len() == 0 {
        prefixes
    } else {
        spec_scan_xmlns(spec_scan_one(prefixes, attrs[0]), attrs.drop_first())
    }
}

/// What one attribute contributes to the prefix map.
pub open spec fn spec_scan_one(
    prefixes: Seq<(Option<Seq<char>>, Seq<char>)>,
    attr: (Seq<char>, Seq<char>),
) -> Seq<(Option<Seq<char>>, Seq<char>)> {
    match spec_prefix_of(attr.0) {
        Some(p) => if p == "xmlns"@ {
            spec_add_prefix(prefixes, Some(spec_local_of(attr.0)), attr.1)
        } else {
            prefixes
        },
        None => if attr.0 == "xmlns"@ {
            spec_add_prefix(prefixes, None, attr.1)
        } else {
            prefixes
        },
    }
}

/// Scanning one more attribute extends the left-to-right fold.
proof fn lemma_scan_xmlns_snoc(
    prefixes: Seq<(Option<Seq<char>>, Seq<char>)>,
    attrs: Seq<(Seq<char>, Seq<char>)>,
    attr: (Seq<char>, Seq<char>),
)
    ensures
        spec_scan_xmlns(prefixes, attrs.push(attr)) == spec_scan_one(
            spec_scan_xmlns(prefixes, attrs),
            attr,
        ),
    decreases attrs.len(),
{
    let s = attrs.push(attr);
    if attrs.len() == 0 {
        assert(s[0] == attr);
        assert(s.drop_first() =~= Seq::<(Seq<char>, Seq<char>)>::empty());
        assert(spec_scan_xmlns(prefixes, s) == spec_scan_xmlns(
            spec_scan_one(prefixes, attr),
            s.drop_first(),
        ));
        assert(spec_scan_xmlns(spec_scan_one(prefixes, attr), s.drop_first())
            == spec_scan_one(prefixes, attr));
        assert(spec_scan_xmlns(prefixes, attrs) == prefixes);
    } else {
        assert(s[0] == attrs[0]);
        assert(s.drop_first() =~= attrs.drop_first().push(attr));
        assert(spec_scan_xmlns(prefixes, s) == spec_scan_xmlns(
            spec_scan_one(prefixes, attrs[0]),
            attrs.drop_first().push(attr),
        ));
        lemma_scan_xmlns_snoc(spec_scan_one(prefixes, attrs[0]), attrs.drop_first(), attr);
        assert(spec_scan_xmlns(prefixes, attrs) == spec_scan_xmlns(
            spec_scan_one(prefixes, attrs[0]),
            attrs.drop_first(),
        ));
    }
}

/// The parser state after the element's `xmlns` declarations are
/// recorded.
pub open spec fn spec_after_xmlns(p: ParserView, attrs: Seq<(Seq<char>, Seq<char>)>) -> ParserView {
    ParserView {
        current: CnView {
            prefixes: spec_scan_xmlns(p.current.prefixes, attrs),
            target: p.current.target,
        },
        ..p
    }
}

/// What an element open does: the parser state afterwards, the state to
/// push for the element, and the location of a document to parse inline
/// first.  `Err` is a structural error.
pub open spec fn spec_handle_start(
    p0: ParserView,
    state: Option<PsView>,
    name: Seq<char>,
    attrs: Seq<(Seq<char>, Seq<char>)>,
) -> Result<(ParserView, Option<PsView>, Option<Seq<char>>), ()> {
    let p = spec_after_xmlns(p0, attrs);
    let local = spec_local_of(name);
    match state {
        None => spec_start_root(p, name, attrs),
        Some(st) => match st {
            PsView::Definitions => spec_start_in_definitions(p, local, attrs),
            PsView::Types => {
                if local == "schema"@ {
                    spec_start_schema_elem(p, name, attrs)
                } else if local == "import"@ {
                    spec_start_import(p, local, attrs, "schemaLocation"@)
                } else {
                    spec_push_other(p, local)
                }
            },
            PsView::Schema => spec_start_in_schema(p, local, attrs),
            PsView::Element { .. } => {
                if local == "complexType"@ {
                    Ok((p, Some(PsView::ComplexType { name: None, kind: None }), None))
                } else {
                    spec_push_other(p, local)
                }
            },
            PsView::ComplexType { .. } => {
                if local == "sequence"@ {
                    Ok((p, Some(PsView::Sequence { fields: Seq::empty() }), None))
                } else if local == "simpleContent"@ {
                    Ok((p, Some(PsView::SimpleContent { ty: None }), None))
                } else if local == "complexContent"@ {
                    Ok((p, Some(PsView::ComplexContent { fields: Seq::empty() }), None))
                } else {
                    spec_push_other(p, local)
                }
            },
            PsView::ComplexContent { .. } => spec_start_in_complex_content(p, local, attrs),
            PsView::ComplexExtension { .. } => {
                if local == "sequence"@ {
                    Ok((p, Some(PsView::Sequence { fields: Seq::empty() }), None))
                } else {
                    spec_push_other(p, local)
                }
            },
            PsView::SimpleContent { .. } => spec_start_in_simple_content(p, local, attrs),
            PsView::SimpleType { .. } => spec_start_in_simple_type(p, local, attrs),
            PsView::Sequence { .. } => spec_start_in_sequence(p, local, attrs),
            PsView::SequenceElement { .. } => {
                if local == "complexType"@ {
                    Ok((p, Some(PsView::ComplexType { name: None, kind: None }), None))
                } else {
                    spec_push_other(p, local)
                }
            },
            PsView::Message { .. } => spec_start_in_message(p, local, attrs),
            PsView::PortType { .. } => {
                if local == "operation"@ {
                    match spec_get_attr(attrs, "name"@) {
                        Some(n) => Ok(
                            (
                                p,
                                Some(
                                    PsView::Operation {
                                        name: n,
                                        documentation: None,
                                        input: None,
                                        output: None,
                                    },
                                ),
                                None,
                            ),
                        ),
                        None => Err(()),
                    }
                } else {
                    spec_push_other(p, local)
                }
            },
            PsView::Operation { .. } => spec_start_in_operation(p, local, attrs),
            PsView::Binding { .. } => spec_start_in_binding(p, local, attrs),
            PsView::BindingOperation { .. } => spec_start_in_binding_operation(p, local, attrs),
            PsView::BindingInput { .. } => spec_start_in_binding_io(p, local, attrs),
            PsView::BindingOutput { .. } => spec_start_in_binding_io(p, local, attrs),
            PsView::Service { .. } => spec_start_in_service(p, local, attrs),
            PsView::Port { .. } => spec_start_in_port(p, local, attrs),
            PsView::Import { .. } => Err(()),
            _ => spec_push_other(p, local),
        },
    }
}

/// Unknown elements are recorded and their children ignored.
pub open spec fn spec_push_other(p: ParserView, local: Seq<char>) -> Result<
    (ParserView, Option<PsView>, Option<Seq<char>>),
    (),
> {
    Ok((p, Some(PsView::Other { name: local }), None))
}

/// `definitions` and `schema` at the root of a document.
pub open spec fn spec_start_root(
    p: ParserView,
    name: Seq<char>,
    attrs: Seq<(Seq<char>, Seq<char>)>,
) -> Result<(ParserView, Option<PsView>, Option<Seq<char>>), ()> {
    let local = spec_local_of(name);
    if local == "definitions"@ {
        match spec_get_attr(attrs, "targetNamespace"@) {
            Some(ns) => Ok(
                (
                    ParserView {
                        current: CnView {
                            target: p.current.target.push(ns),
                            prefixes: p.current.prefixes,
                        },
                        ..p
                    },
                    Some(PsView::Definitions),
                    None,
                ),
            ),
            None => Err(()),
        }
    } else if local == "schema"@ {
        spec_start_schema_elem(p, name, attrs)
    } else {
        spec_push_other(p, local)
    }
}

/// A `schema` element: push its target namespace and bind the element's
/// own prefix to the namespace it resolves to.
pub open spec fn spec_start_schema_elem(
    p: ParserView,
    name: Seq<char>,
    attrs: Seq<(Seq<char>, Seq<char>)>,
) -> Result<(ParserView, Option<PsView>, Option<Seq<char>>), ()> {
    match spec_get_attr(attrs, "targetNamespace"@) {
        Some(ns) => {
            let prefix = spec_prefix_of(name);
            match spec_lookup_prefix(p.current.prefixes, prefix) {
                Some(uri) => Ok(
                    (
                        ParserView {
                            current: CnView {
                                target: p.current.target.push(ns),
                                prefixes: spec_add_prefix(p.current.prefixes, prefix, uri),
                            },
                            ..p
                        },
                        Some(PsView::Schema),
                        None,
                    ),
                ),
                None => Err(()),
            }
        },
        None => Err(()),
    }
}

/// An `import` or `include`: the referenced document is parsed inline.
pub open spec fn spec_start_import(
    p: ParserView,
    local: Seq<char>,
    attrs: Seq<(Seq<char>, Seq<char>)>,
    location_attr: Seq<char>,
) -> Result<(ParserView, Option<PsView>, Option<Seq<char>>), ()> {
    match spec_get_attr(attrs, location_attr) {
        Some(loc) => Ok(
            (
                p,
                Some(PsView::Import { namespace: spec_get_attr(attrs, "namespace"@) }),
                Some(loc),
            ),
        ),
        None => Err(()),
    }
}

/// Children of `definitions`.
pub open spec fn spec_start_in_definitions(
    p: ParserView,
    local: Seq<char>,
    attrs: Seq<(Seq<char>, Seq<char>)>,
) -> Result<(ParserView, Option<PsView>, Option<Seq<char>>), ()> {
    if local == "import"@ {
        spec_start_import(p, local, attrs, "location"@)
    } else if local == "types"@ {
        Ok((p, Some(PsView::Types), None))
    } else if local == "message"@ {
        match spec_get_attr(attrs, "name"@) {
            Some(n) => Ok((p, Some(PsView::Message { name: n, parts: Seq::empty() }), None)),
            None => Err(()),
        }
    } else if local == "portType"@ {
        match spec_get_attr(attrs, "name"@) {
            Some(n) => Ok((p, Some(PsView::PortType { name: n, operations: Seq::empty() }), None)),
            None => Err(()),
        }
    } else if local == "binding"@ {
        match (spec_get_attr(attrs, "name"@), spec_get_attr(attrs, "type"@)) {
            (Some(n), Some(tyq)) => match spec_resolve(p.current, p.namespaces, tyq) {
                Ok((tyn, nss2)) => Ok(
                    (
                        ParserView { namespaces: nss2, ..p },
                        Some(
                            PsView::Binding {
                                name: n,
                                ty: tyn,
                                transport: None,
                                operations: Seq::empty(),
                            },
                        ),
                        None,
                    ),
                ),
                Err(_) => Err(()),
            },
            _ => Err(()),
        }
    } else if local == "service"@ {
        match spec_get_attr(attrs, "name"@) {
            Some(n) => Ok((p, Some(PsView::Service { name: n, ports: Seq::empty() }), None)),
            None => Err(()),
        }
    } else {
        spec_push_other(p, local)
    }
}

/// Children of `schema`.
pub open spec fn spec_start_in_schema(
    p: ParserView,
    local: Seq<char>,
    attrs: Seq<(Seq<char>, Seq<char>)>,
) -> Result<(ParserView, Option<PsView>, Option<Seq<char>>), ()> {
    if local == "element"@ {
        match spec_get_attr(attrs, "name"@) {
            Some(n) => match spec_get_attr(attrs, "type"@) {
                Some(tyq) => match spec_resolve(p.current, p.namespaces, tyq) {
                    Ok((tyn, nss2)) => Ok(
                        (
                            ParserView { namespaces: nss2, ..p },
                            Some(
                                PsView::Element {
                                    name: n,
                                    kind: Some(crate::types::TypeKindView::Alias(tyn)),
                                },
                            ),
                            None,
                        ),
                    ),
                    Err(_) => Err(()),
                },
                None => Ok((p, Some(PsView::Element { name: n, kind: None }), None)),
            },
            None => Err(()),
        }
    } else if local == "complexType"@ {
        match spec_get_attr(attrs, "name"@) {
            Some(n) => Ok((p, Some(PsView::ComplexType { name: Some(n), kind: None }), None)),
            None => Err(()),
        }
    } else if local == "simpleType"@ {
        match spec_get_attr(attrs, "name"@) {
            Some(n) => Ok((p, Some(PsView::SimpleType { name: n, ty: None }), None)),
            None => Err(()),
        }
    } else if local == "include"@ || local == "import"@ {
        spec_start_import(p, local, attrs, "schemaLocation"@)
    } else {
        spec_push_other(p, local)
    }
}

/// `extension` inside `complexContent`: the base type becomes a synthetic
/// first field named `base` in the target namespace.
pub open spec fn spec_start_in_complex_content(
    p: ParserView,
    local: Seq<char>,
    attrs: Seq<(Seq<char>, Seq<char>)>,
) -> Result<(ParserView, Option<PsView>, Option<Seq<char>>), ()> {
    if local == "extension"@ {
        match spec_get_attr(attrs, "base"@) {
            Some(baseq) => match spec_resolve(p.current, p.namespaces, baseq) {
                Ok((tyn, nss2)) => match spec_resolve(p.current, nss2, "tns:base"@) {
                    Ok((fname, nss3)) => Ok(
                        (
                            ParserView { namespaces: nss3, ..p },
                            Some(
                                PsView::ComplexExtension {
                                    fields: seq![
                                        crate::types::FieldView {
                                            name: fname,
                                            ty: crate::types::FieldKindView::Type(tyn),
                                        },
                                    ],
                                },
                            ),
                            None,
                        ),
                    ),
                    Err(_) => Err(()),
                },
                Err(_) => Err(()),
            },
            None => Err(()),
        }
    } else {
        spec_push_other(p, local)
    }
}

/// `extension` inside `simpleContent`.
pub open spec fn spec_start_in_simple_content(
    p: ParserView,
    local: Seq<char>,
    attrs: Seq<(Seq<char>, Seq<char>)>,
) -> Result<(ParserView, Option<PsView>, Option<Seq<char>>), ()> {
    if local == "extension"@ {
        match spec_get_attr(attrs, "base"@) {
            Some(baseq) => match spec_resolve(p.current, p.namespaces, baseq) {
                Ok((tyn, nss2)) => Ok(
                    (
                        ParserView { namespaces: nss2, ..p },
                        Some(PsView::SimpleExtension { ty: tyn }),
                        None,
                    ),
                ),
                Err(_) => Err(()),
            },
            None => Err(()),
        }
    } else {
        spec_push_other(p, local)
    }
}

/// `restriction` inside `simpleType`.
pub open spec fn spec_start_in_simple_type(
    p: ParserView,
    local: Seq<char>,
    attrs: Seq<(Seq<char>, Seq<char>)>,
) -> Result<(ParserView, Option<PsView>, Option<Seq<char>>), ()> {
    if local == "restriction"@ {
        match spec_get_attr(attrs, "base"@) {
            Some(baseq) => match spec_resolve(p.current, p.namespaces, baseq) {
                Ok((tyn, nss2)) => Ok(
                    (
                        ParserView { namespaces: nss2, ..p },
                        Some(PsView::Restriction { ty: tyn }),
                        None,
                    ),
                ),
                Err(_) => Err(()),
            },
            None => Err(()),
        }
    } else {
        spec_push_other(p, local)
    }
}

/// `element` inside `sequence`: a field in document order.
pub open spec fn spec_start_in_sequence(
    p: ParserView,
    local: Seq<char>,
    attrs: Seq<(Seq<char>, Seq<char>)>,
) -> Result<(ParserView, Option<PsView>, Option<Seq<char>>), ()> {
    if local == "element"@ {
        match spec_get_attr(attrs, "name"@) {
            Some(n) => match spec_get_attr(attrs, "type"@) {
                Some(tyq) => match spec_resolve(p.current, p.namespaces, tyq) {
                    Ok((tyn, nss2)) => Ok(
                        (
                            ParserView { namespaces: nss2, ..p },
                            Some(
                                PsView::SequenceElement { name: n, ty: Some(tyn), inner: None },
                            ),
                            None,
                        ),
                    ),
                    Err(_) => Err(()),
                },
                None => Ok((p, Some(PsView::SequenceElement { name: n, ty: None, inner: None }), None)),
            },
            None => Err(()),
        }
    } else {
        spec_push_other(p, local)
    }
}

/// `part` inside `message`.
pub open spec fn spec_start_in_message(
    p: ParserView,
    local: Seq<char>,
    attrs: Seq<(Seq<char>, Seq<char>)>,
) -> Result<(ParserView, Option<PsView>, Option<Seq<char>>), ()> {
    if local == "part"@ {
        match (spec_get_attr(attrs, "name"@), spec_get_attr(attrs, "element"@)) {
            (Some(n), Some(elq)) => match spec_resolve(p.current, p.namespaces, elq) {
                Ok((eln, nss2)) => Ok(
                    (
                        ParserView { namespaces: nss2, ..p },
                        Some(PsView::Part { name: n, element: eln }),
                        None,
                    ),
                ),
                Err(_) => Err(()),
            },
            _ => Err(()),
        }
    } else {
        spec_push_other(p, local)
    }
}

/// `documentation`, `input` and `output` inside `operation`.
pub open spec fn spec_start_in_operation(
    p: ParserView,
    local: Seq<char>,
    attrs: Seq<(Seq<char>, Seq<char>)>,
) -> Result<(ParserView, Option<PsView>, Option<Seq<char>>), ()> {
    if local == "documentation"@ {
        Ok((p, Some(PsView::Documentation { text: None }), None))
    } else if local == "input"@ || local == "output"@ {
        match spec_get_attr(attrs, "message"@) {
            Some(mq) => match spec_resolve(p.current, p.namespaces, mq) {
                Ok((mn, nss2)) => Ok(
                    (
                        ParserView { namespaces: nss2, ..p },
                        Some(
                            if local == "input"@ {
                                PsView::Input { message: mn }
                            } else {
                                PsView::Output { message: mn }
                            },
                        ),
                        None,
                    ),
                ),
                Err(_) => Err(()),
            },
            None => Err(()),
        }
    } else {
        spec_push_other(p, local)
    }
}

/// The nested soap `binding` and the `operation`s of a `binding`.
pub open spec fn spec_start_in_binding(
    p: ParserView,
    local: Seq<char>,
    attrs: Seq<(Seq<char>, Seq<char>)>,
) -> Result<(ParserView, Option<PsView>, Option<Seq<char>>), ()> {
    if local == "binding"@ {
        match spec_get_attr(attrs, "transport"@) {
            Some(t) => Ok((p, Some(PsView::Transport { transport: t }), None)),
            None => Err(()),
        }
    } else if local == "operation"@ {
        match spec_get_attr(attrs, "name"@) {
            Some(n) => Ok(
                (
                    p,
                    Some(
                        PsView::BindingOperation {
                            name: n,
                            action: None,
                            style: None,
                            input: None,
                            output: None,
                        },
                    ),
                    None,
                ),
            ),
            None => Err(()),
        }
    } else {
        spec_push_other(p, local)
    }
}

/// The nested soap `operation`, `input` and `output` of a binding
/// operation.
pub open spec fn spec_start_in_binding_operation(
    p: ParserView,
    local: Seq<char>,
    attrs: Seq<(Seq<char>, Seq<char>)>,
) -> Result<(ParserView, Option<PsView>, Option<Seq<char>>), ()> {
    if local == "operation"@ {
        match (spec_get_attr(attrs, "soapAction"@), spec_get_attr(attrs, "style"@)) {
            (Some(a), Some(s)) => Ok((p, Some(PsView::OperationAction { action: a, style: s }), None)),
            _ => Err(()),
        }
    } else if local == "input"@ {
        Ok((p, Some(PsView::BindingInput { body: None }), None))
    } else if local == "output"@ {
        Ok((p, Some(PsView::BindingOutput { body: None }), None))
    } else {
        spec_push_other(p, local)
    }
}

/// The soap `body` of a binding input or output.
pub open spec fn spec_start_in_binding_io(
    p: ParserView,
    local: Seq<char>,
    attrs: Seq<(Seq<char>, Seq<char>)>,
) -> Result<(ParserView, Option<PsView>, Option<Seq<char>>), ()> {
    if local == "body"@ {
        match spec_get_attr(attrs, "use"@) {
            Some(u) => Ok((p, Some(PsView::BindingBody { body: u }), None)),
            None => Err(()),
        }
    } else {
        spec_push_other(p, local)
    }
}

/// `port` inside `service`.
pub open spec fn spec_start_in_service(
    p: ParserView,
    local: Seq<char>,
    attrs: Seq<(Seq<char>, Seq<char>)>,
) -> Result<(ParserView, Option<PsView>, Option<Seq<char>>), ()> {
    if local == "port"@ {
        match (spec_get_attr(attrs, "name"@), spec_get_attr(attrs, "binding"@)) {
            (Some(n), Some(bq)) => match spec_resolve(p.current, p.namespaces, bq) {
                Ok((bn, nss2)) => Ok(
                    (
                        ParserView { namespaces: nss2, ..p },
                        Some(PsView::Port { name: n, binding: bn, address: None }),
                        None,
                    ),
                ),
                Err(_) => Err(()),
            },
            _ => Err(()),
        }
    } else {
        spec_push_other(p, local)
    }
}

impl CurrentNamespaces {
    /// The URI bound to `prefix`, if any.
    pub fn lookup_prefix(&self, prefix: &Option<String>) -> (r: Option<String>)
        ensures
            match r {
                Some(u) => spec_lookup_prefix(self@.prefixes, opt_view(*prefix)) == Some(u@),
                None => spec_lookup_prefix(self@.prefixes, opt_view(*prefix)) is None,
            },
    {
        proof {
            lemma_lookup_prefix(self@.prefixes, opt_view(*prefix));
        }
        let n = self.namespaces.len();
        let mut i: usize = 0;
        #[verifier::loop_isolation(false)]
        while i < n
            invariant
                0 <= i <= n,
                n == self.namespaces@.len(),
                forall|k: int| 0 <= k < i ==> opt_view(#[trigger] self.namespaces@[k].0)
                    != opt_view(*prefix),
            decreases n - i,
        {
            if opt_name_eq(&self.namespaces[i].0, prefix) {
                proof {
                    assert forall|k: int| 0 <= k < i implies (#[trigger] self@.prefixes[k]).0
                        != opt_view(*prefix) by {
                        assert(self@.prefixes[k] == (
                            opt_view(self.namespaces@[k].0),
                            self.namespaces@[k].1@,
                        ));
                    }
                    assert(self@.prefixes[i as int] == (
                        opt_view(self.namespaces@[i as int].0),
                        self.namespaces@[i as int].1@,
                    ));
                    assert(spec_lookup_prefix(self@.prefixes, opt_view(*prefix)) == Some(
                        self.namespaces@[i as int].1@,
                    ));
                }
                return Some(self.namespaces[i].1.clone());
            }
            i = i + 1;
        }
        proof {
            assert forall|k: int| 0 <= k < self@.prefixes.len() implies (
            #[trigger] self@.prefixes[k]).0 != opt_view(*prefix) by {
                assert(self@.prefixes[k] == (
                    opt_view(self.namespaces@[k].0),
                    self.namespaces@[k].1@,
                ));
            }
        }
        None
    }
}

/// `address` inside `port`.
pub open spec fn spec_start_in_port(
    p: ParserView,
    local: Seq<char>,
    attrs: Seq<(Seq<char>, Seq<char>)>,
) -> Result<(ParserView, Option<PsView>, Option<Seq<char>>), ()> {
    if local == "address"@ {
        match spec_get_attr(attrs, "location"@) {
            Some(l) => Ok((p, Some(PsView::Address { location: l }), None)),
            None => Err(()),
        }
    } else {
        spec_push_other(p, local)
    }
}

/// Qualifying a local name with the innermost target namespace.
pub open spec fn spec_tns(p: ParserView, local: Seq<char>) -> Result<(NameView, ParserView), ()> {
    if p.current.target.len() == 0 {
        Err(())
    } else {
        let (nss2, i) = spec_add_or_get(p.namespaces, p.current.target.last());
        Ok((NameView { ns: i, local }, ParserView { namespaces: nss2, ..p }))
    }
}

/// Leaving the innermost target namespace.
pub open spec fn spec_pop_target(p: ParserView) -> ParserView {
    if p.current.target.len() > 0 {
        ParserView {
            current: CnView { target: p.current.target.drop_last(), prefixes: p.current.prefixes },
            ..p
        }
    } else {
        p
    }
}

/// What an element close does with the finished frame `fin` and its
/// parent frame `next`: the parser afterwards and the frame to push back,
/// if any.  `Err` is a structural error: a mandatory part is missing, or
/// the frame closed in the wrong context.
pub open spec fn spec_fold_end(
    p: ParserView,
    fin: PsView,
    next: Option<PsView>,
) -> Result<(ParserView, Option<PsView>), ()> {
    match fin {
        PsView::Definitions => Ok((spec_pop_target(p), next)),
        PsView::Schema => Ok((spec_pop_target(p), next)),
        PsView::Element { name, kind } => match kind {
            Some(k) => match spec_tns(p, name) {
                Ok((n, p2)) => Ok(
                    (
                        ParserView {
                            definition: crate::types::DefinitionView {
                                types: p2.definition.types.push(
                                    crate::types::TypeView { name: n, kind: k },
                                ),
                                ..p2.definition
                            },
                            ..p2
                        },
                        next,
                    ),
                ),
                Err(_) => Err(()),
            },
            None => Err(()),
        },
        PsView::ComplexType { name, kind } => match next {
            Some(PsView::SequenceElement { name: sn, ty: _, inner: _ }) => match name {
                Some(nm) => match spec_tns(p, nm) {
                    Ok((n, p2)) => Ok(
                        (p2, Some(PsView::SequenceElement { name: sn, ty: Some(n), inner: kind })),
                    ),
                    Err(_) => Err(()),
                },
                None => Ok((p, Some(PsView::SequenceElement { name: sn, ty: None, inner: kind }))),
            },
            Some(PsView::Element { name: en, kind: _ }) => {
                if name is Some {
                    Err(())
                } else {
                    Ok((p, Some(PsView::Element { name: en, kind })))
                }
            },
            _ => match (kind, name) {
                (Some(k), Some(nm)) => match spec_tns(p, nm) {
                    Ok((n, p2)) => Ok(
                        (
                            ParserView {
                                definition: crate::types::DefinitionView {
                                    types: p2.definition.types.push(
                                        crate::types::TypeView { name: n, kind: k },
                                    ),
                                    ..p2.definition
                                },
                                ..p2
                            },
                            next,
                        ),
                    ),
                    Err(_) => Err(()),
                },
                _ => Err(()),
            },
        },
        PsView::ComplexContent { fields } => match next {
            Some(PsView::ComplexType { name: cn, kind: None }) => Ok(
                (
                    p,
                    Some(
                        PsView::ComplexType {
                            name: cn,
                            kind: Some(crate::types::TypeKindView::Struct(fields)),
                        },
                    ),
                ),
            ),
            _ => Err(()),
        },
        PsView::ComplexExtension { fields } => match next {
            Some(PsView::ComplexContent { fields: cf }) => Ok(
                (p, Some(PsView::ComplexContent { fields: cf + fields })),
            ),
            _ => Err(()),
        },
        PsView::SimpleContent { ty } => match next {
            Some(PsView::ComplexType { name: cn, kind: None }) => match ty {
                Some(t) => Ok(
                    (
                        p,
                        Some(
                            PsView::ComplexType {
                                name: cn,
                                kind: Some(crate::types::TypeKindView::Alias(t)),
                            },
                        ),
                    ),
                ),
                None => Err(()),
            },
            _ => Err(()),
        },
        PsView::SimpleExtension { ty } => match next {
            Some(PsView::SimpleContent { .. }) => Ok(
                (p, Some(PsView::SimpleContent { ty: Some(ty) })),
            ),
            _ => Err(()),
        },
        PsView::SimpleType { name, ty } => match ty {
            Some(t) => match spec_tns(p, name) {
                Ok((n, p2)) => Ok(
                    (
                        ParserView {
                            definition: crate::types::DefinitionView {
                                types: p2.definition.types.push(
                                    crate::types::TypeView {
                                        name: n,
                                        kind: crate::types::TypeKindView::Simple(t),
                                    },
                                ),
                                ..p2.definition
                            },
                            ..p2
                        },
                        next,
                    ),
                ),
                Err(_) => Err(()),
            },
            None => Err(()),
        },
        PsView::Restriction { ty } => match next {
            Some(PsView::SimpleType { name: sn, ty: _ }) => Ok(
                (p, Some(PsView::SimpleType { name: sn, ty: Some(ty) })),
            ),
            _ => Err(()),
        },
        PsView::Sequence { fields } => match next {
            Some(PsView::ComplexType { name: cn, kind: None }) => Ok(
                (
                    p,
                    Some(
                        PsView::ComplexType {
                            name: cn,
                            kind: Some(crate::types::TypeKindView::Struct(fields)),
                        },
                    ),
                ),
            ),
            Some(PsView::ComplexExtension { fields: ef }) => Ok(
                (p, Some(PsView::ComplexExtension { fields: ef + fields })),
            ),
            _ => Err(()),
        },
        PsView::SequenceElement { name, ty, inner } => match next {
            Some(PsView::Sequence { fields }) => match spec_tns(p, name) {
                Ok((n, p2)) => match inner {
                    Some(k) => Ok(
                        (
                            p2,
                            Some(
                                PsView::Sequence {
                                    fields: fields.push(
                                        crate::types::FieldView {
                                            name: n,
                                            ty: crate::types::FieldKindView::Inner(k),
                                        },
                                    ),
                                },
                            ),
                        ),
                    ),
                    None => match ty {
                        Some(t) => Ok(
                            (
                                p2,
                                Some(
                                    PsView::Sequence {
                                        fields: fields.push(
                                            crate::types::FieldView {
                                                name: n,
                                                ty: crate::types::FieldKindView::Type(t),
                                            },
                                        ),
                                    },
                                ),
                            ),
                        ),
                        None => Err(()),
                    },
                },
                Err(_) => Err(()),
            },
            _ => Err(()),
        },
        PsView::Message { name, parts } => match spec_tns(p, name) {
            Ok((n, p2)) => Ok(
                (
                    ParserView {
                        definition: crate::types::DefinitionView {
                            messages: p2.definition.messages.push(
                                crate::types::MessageView { name: n, parts },
                            ),
                            ..p2.definition
                        },
                        ..p2
                    },
                    next,
                ),
            ),
            Err(_) => Err(()),
        },
        PsView::Part { name, element } => match next {
            Some(PsView::Message { name: mn, parts }) => match spec_tns(p, name) {
                Ok((n, p2)) => Ok(
                    (
                        p2,
                        Some(
                            PsView::Message {
                                name: mn,
                                parts: parts.push(
                                    crate::types::FieldView {
                                        name: n,
                                        ty: crate::types::FieldKindView::Type(element),
                                    },
                                ),
                            },
                        ),
                    ),
                ),
                Err(_) => Err(()),
            },
            _ => Err(()),
        },
        PsView::PortType { name, operations } => match spec_tns(p, name) {
            Ok((n, p2)) => Ok(
                (
                    ParserView {
                        definition: crate::types::DefinitionView {
                            port_types: p2.definition.port_types.push(
                                crate::types::PortTypeView { name: n, operations },
                            ),
                            ..p2.definition
                        },
                        ..p2
                    },
                    next,
                ),
            ),
            Err(_) => Err(()),
        },
        PsView::Operation { name, documentation, input, output } => match next {
            Some(PsView::PortType { name: pn, operations }) => match spec_tns(p, name) {
                Ok((n, p2)) => Ok(
                    (
                        p2,
                        Some(
                            PsView::PortType {
                                name: pn,
                                operations: operations.push(
                                    crate::types::OperationView {
                                        name: n,
                                        documentation,
                                        input,
                                        output,
                                    },
                                ),
                            },
                        ),
                    ),
                ),
                Err(_) => Err(()),
            },
            _ => Err(()),
        },
        PsView::Documentation { text } => match next {
            Some(PsView::Operation { name, documentation: _, input, output }) => Ok(
                (p, Some(PsView::Operation { name, documentation: text, input, output })),
            ),
            _ => Err(()),
        },
        PsView::Input { message } => match next {
            Some(PsView::Operation { name, documentation, input: None, output }) => Ok(
                (
                    p,
                    Some(
                        PsView::Operation { name, documentation, input: Some(message), output },
                    ),
                ),
            ),
            _ => Err(()),
        },
        PsView::Output { message } => match next {
            Some(PsView::Operation { name, documentation, input, output: None }) => Ok(
                (
                    p,
                    Some(
                        PsView::Operation { name, documentation, input, output: Some(message) },
                    ),
                ),
            ),
            _ => Err(()),
        },
        PsView::Transport { transport } => match next {
            Some(PsView::Binding { name, ty, transport: None, operations }) => Ok(
                (
                    p,
                    Some(
                        PsView::Binding { name, ty, transport: Some(transport), operations },
                    ),
                ),
            ),
            _ => Err(()),
        },
        PsView::Binding { name, ty, transport, operations } => match spec_tns(p, name) {
            Ok((n, p2)) => match transport {
                Some(t) => Ok(
                    (
                        ParserView {
                            definition: crate::types::DefinitionView {
                                bindings: p2.definition.bindings.push(
                                    crate::types::BindingView {
                                        name: n,
                                        ty,
                                        transport: t,
                                        operations,
                                    },
                                ),
                                ..p2.definition
                            },
                            ..p2
                        },
                        next,
                    ),
                ),
                None => Err(()),
            },
            Err(_) => Err(()),
        },
        PsView::BindingOperation { name, action, style, input, output } => match next {
            Some(PsView::Binding { name: bn, ty, transport, operations }) => match spec_tns(
                p,
                name,
            ) {
                Ok((n, p2)) => match (action, style) {
                    (Some(a), Some(s)) => Ok(
                        (
                            p2,
                            Some(
                                PsView::Binding {
                                    name: bn,
                                    ty,
                                    transport,
                                    operations: operations.push(
                                        crate::types::BindingOperationView {
                                            name: n,
                                            action: a,
                                            style: s,
                                            input,
                                            output,
                                        },
                                    ),
                                },
                            ),
                        ),
                    ),
                    _ => Err(()),
                },
                Err(_) => Err(()),
            },
            _ => Err(()),
        },
        PsView::OperationAction { action, style } => match next {
            Some(PsView::BindingOperation { name, action: _, style: _, input, output }) => Ok(
                (
                    p,
                    Some(
                        PsView::BindingOperation {
                            name,
                            action: Some(action),
                            style: Some(style),
                            input,
                            output,
                        },
                    ),
                ),
            ),
            _ => Err(()),
        },
        PsView::BindingInput { body } => match next {
            Some(PsView::BindingOperation { name, action, style, input: _, output }) => Ok(
                (
                    p,
                    Some(
                        PsView::BindingOperation { name, action, style, input: body, output },
                    ),
                ),
            ),
            _ => Err(()),
        },
        PsView::BindingOutput { body } => match next {
            Some(PsView::BindingOperation { name, action, style, input, output: _ }) => Ok(
                (
                    p,
                    Some(
                        PsView::BindingOperation { name, action, style, input, output: body },
                    ),
                ),
            ),
            _ => Err(()),
        },
        PsView::BindingBody { body } => match next {
            Some(PsView::BindingInput { .. }) => Ok(
                (p, Some(PsView::BindingInput { body: Some(body) })),
            ),
            Some(PsView::BindingOutput { .. }) => Ok(
                (p, Some(PsView::BindingOutput { body: Some(body) })),
            ),
            _ => Err(()),
        },
        PsView::Service { name, ports } => match spec_tns(p, name) {
            Ok((n, p2)) => Ok(
                (
                    ParserView {
                        definition: crate::types::DefinitionView {
                            services: p2.definition.services.push(
                                crate::types::ServiceView { name: n, ports },
                            ),
                            ..p2.definition
                        },
                        ..p2
                    },
                    next,
                ),
            ),
            Err(_) => Err(()),
        },
        PsView::Port { name, binding, address } => match next {
            Some(PsView::Service { name: sn, ports }) => match spec_tns(p, name) {
                Ok((n, p2)) => match address {
                    Some(a) => Ok(
                        (
                            p2,
                            Some(
                                PsView::Service {
                                    name: sn,
                                    ports: ports.push(
                                        crate::types::PortView {
                                            name: n,
                                            binding,
                                            location: a,
                                        },
                                    ),
                                },
                            ),
                        ),
                    ),
                    None => Err(()),
                },
                Err(_) => Err(()),
            },
            _ => Err(()),
        },
        PsView::Address { location } => match next {
            Some(PsView::Port { name, binding, address: _ }) => Ok(
                (p, Some(PsView::Port { name, binding, address: Some(location) })),
            ),
            _ => Err(()),
        },
        _ => Ok((p, next)),
    }
}

/// What an element close does to the whole stack.
pub open spec fn spec_handle_end(p: ParserView, stack: Seq<PsView>) -> Result<
    (ParserView, Seq<PsView>),
    (),
> {
    if stack.len() == 0 {
        Ok((p, stack))
    } else {
        let fin = stack.last();
        let rest = stack.drop_last();
        let next = if rest.len() == 0 {
            None
        } else {
            Some(rest.last())
        };
        let rest2 = if rest.len() == 0 {
            rest
        } else {
            rest.drop_last()
        };
        match spec_fold_end(p, fin, next) {
            Ok((p2, next2)) => Ok(
                (
                    p2,
                    match next2 {
                        Some(s) => rest2.push(s),
                        None => rest2,
                    },
                ),
            ),
            Err(_) => Err(()),
        }
    }
}

/// Text is meaningful only inside `documentation`, where it overwrites
/// the collected string.
pub open spec fn spec_handle_text(stack: Seq<PsView>, text: Seq<char>) -> Seq<PsView> {
    if stack.len() > 0 && (stack.last() matches PsView::Documentation { .. }) {
        stack.drop_last().push(PsView::Documentation { text: Some(text) })
    } else {
        stack
    }
}

/// Closing a `sequence/element` child appends exactly one field at the
/// end of the open sequence: field order in the model equals document
/// order of the children.
pub proof fn lemma_field_order_is_document_order(
    p: ParserView,
    name: Seq<char>,
    ty: Option<NameView>,
    inner: Option<crate::types::TypeKindView>,
    fields: Seq<crate::types::FieldView>,
)
    requires
        spec_fold_end(
            p,
            PsView::SequenceElement { name, ty, inner },
            Some(PsView::Sequence { fields }),
        ) is Ok,
    ensures
        ({
            let folded = spec_fold_end(
                p,
                PsView::SequenceElement { name, ty, inner },
                Some(PsView::Sequence { fields }),
            )->Ok_0.1;
            folded matches Some(PsView::Sequence { fields: f2 }) && f2.len() == fields.len() + 1
                && f2.take(fields.len() as int) == fields && f2.last().name.local == name
        }),
{
    let folded = spec_fold_end(
        p,
        PsView::SequenceElement { name, ty, inner },
        Some(PsView::Sequence { fields }),
    )->Ok_0.1;
    match folded {
        Some(PsView::Sequence { fields: f2 }) => {
            assert(f2.take(fields.len() as int) =~= fields);
        },
        _ => {},
    }
}

/// A `complexContent/extension` opens with the base type as a synthetic
/// first field named `base` in the target namespace; the extension's own
/// sequence fields follow it.
pub proof fn lemma_extension_base_is_first_field(
    p: ParserView,
    attrs: Seq<(Seq<char>, Seq<char>)>,
)
    requires
        spec_start_in_complex_content(p, "extension"@, attrs) is Ok,
    ensures
        ({
            let pushed = spec_start_in_complex_content(p, "extension"@, attrs)->Ok_0.1;
            let baseq = spec_get_attr(attrs, "base"@);
            &&& baseq is Some
            &&& pushed matches Some(PsView::ComplexExtension { fields })
            &&& (pushed matches Some(PsView::ComplexExtension { fields }) ==> fields.len() == 1
                && fields[0].name.local == "base"@ && (spec_resolve(
                p.current,
                p.namespaces,
                baseq->0,
            ) matches Ok(rt) && fields[0].ty == crate::types::FieldKindView::Type(rt.0)))
        }),
{
    reveal_strlit("tns:base");
    reveal_strlit("base");
    reveal_strlit("tns");
    crate::event::lemma_colon_index("tns:base"@);
    let q = "tns:base"@;
    match crate::event::spec_colon_index(q) {
        Some(i) => {
            if i < 3 {
                assert(q[i] != ':');
                assert(false);
            } else if i > 3 {
                assert(q[3] == ':');
                assert(false);
            }
            assert(spec_local_of(q) =~= "base"@);
            assert(spec_prefix_of(q) matches Some(pf) && pf =~= "tns"@);
        },
        None => {
            assert(q[3] == ':');
            assert(false);
        },
    }
}

/// Folding a finished sequence into an open extension keeps the base
/// field first and appends the sequence's fields after it, in order.
pub proof fn lemma_extension_fields_follow_base(
    p: ParserView,
    seq_fields: Seq<crate::types::FieldView>,
    ext_fields: Seq<crate::types::FieldView>,
)
    ensures
        ({
            let folded = spec_fold_end(
                p,
                PsView::Sequence { fields: seq_fields },
                Some(PsView::ComplexExtension { fields: ext_fields }),
            );
            folded matches Ok((p2, Some(PsView::ComplexExtension { fields: f2 }))) && f2
                == ext_fields + seq_fields
        }),
{
}

/// The ghost value of an optional borrowed parse state.
pub open spec fn view_opt_ref_ps(o: Option<&ParseState>) -> Option<PsView> {
    match o {
        Some(s) => Some(s@),
        None => None,
    }
}

impl Parser {
    /// A parser with nothing parsed yet, rooted at `url`.
    fn new(url: String) -> (r: Self)
        ensures
            r@.root == url@,
            r@.definition == (crate::types::DefinitionView {
                types: Seq::empty(),
                messages: Seq::empty(),
                port_types: Seq::empty(),
                bindings: Seq::empty(),
                services: Seq::empty(),
            }),
            r@.namespaces =~= Seq::<Seq<char>>::empty(),
            r@.current == (CnView { target: Seq::empty(), prefixes: Seq::empty() }),
    {
        let r = Parser {
            root: url,
            definition: Definition::new(),
            namespaces: Namespaces::new(),
            current_namespaces: CurrentNamespaces::new(),
        };
        proof {
            assert(r@.definition.types =~= Seq::<crate::types::TypeView>::empty());
            assert(r@.definition.messages =~= Seq::<crate::types::MessageView>::empty());
            assert(r@.definition.port_types =~= Seq::<crate::types::PortTypeView>::empty());
            assert(r@.definition.bindings =~= Seq::<crate::types::BindingView>::empty());
            assert(r@.definition.services =~= Seq::<crate::types::ServiceView>::empty());
            assert(r@.current.target =~= Seq::<Seq<char>>::empty());
            assert(r@.current.prefixes =~= Seq::<(Option<Seq<char>>, Seq<char>)>::empty());
        }
        r
    }

    /// Resolves a possibly prefixed qualified name against the current
    /// context, interning the namespace.
    fn resolve_namespace(&mut self, qname: &str) -> (r: Result<NamespacedName, Error>)
        ensures
            final(self)@.current == old(self)@.current,
            final(self)@.definition == old(self)@.definition,
            final(self)@.root == old(self)@.root,
            match r {
                Ok(n) => spec_resolve(old(self)@.current, old(self)@.namespaces, qname@) == Ok::<
                    _,
                    (),
                >((n@, final(self)@.namespaces)),
                Err(e) => spec_resolve(old(self)@.current, old(self)@.namespaces, qname@) is Err
                    && (e matches Error::StructuralError) && final(self)@.namespaces == old(
                    self,
                )@.namespaces,
            },
    {
        let (prefix, local) = split_namespaced_name(qname);
        let is_tns = match prefix {
            Some(p) => crate::num::str_eq(p, "tns"),
            None => false,
        };
        if is_tns {
            self.current_namespaces.target_namespaced(&mut self.namespaces, local.to_owned())
        } else {
            let owned_prefix = match prefix {
                Some(p) => Some(p.to_owned()),
                None => None,
            };
            self.current_namespaces.resolved_prefix(&mut self.namespaces, owned_prefix, local.to_owned())
        }
    }

    /// Records the `xmlns` declarations among `attrs`.
    fn scan_xmlns(&mut self, attrs: &Vec<(String, String)>)
        ensures
            final(self)@ == spec_after_xmlns(old(self)@, attrs_view(attrs@)),
    {
        let ghost all = attrs_view(attrs@);
        let n = attrs.len();
        let mut i: usize = 0;
        #[verifier::loop_isolation(false)]
        while i < n
            invariant
                0 <= i <= n,
                self@.root == old(self)@.root,
                self@.definition == old(self)@.definition,
                self@.namespaces == old(self)@.namespaces,
                self@.current.target == old(self)@.current.target,
                self@.current.prefixes == spec_scan_xmlns(
                    old(self)@.current.prefixes,
                    all.take(i as int),
                ),
            decreases n - i,
        {
            proof {
                assert(all.take(i as int).push(all[i as int]) =~= all.take(i as int + 1));
                lemma_scan_xmlns_snoc(old(self)@.current.prefixes, all.take(i as int), all[i as int]);
                assert(all[i as int] == (attrs@[i as int].0@, attrs@[i as int].1@));
            }
            let key = &attrs[i].0;
            let value = &attrs[i].1;
            let (kprefix, klocal) = split_namespaced_name(key.as_str());
            match kprefix {
                Some(kp) => {
                    if crate::num::str_eq(kp, "xmlns") {
                        self.current_namespaces.add_namespace_prefix(
                            Some(klocal.to_owned()),
                            value.as_str(),
                        );
                    }
                },
                None => {
                    if crate::num::str_eq(key.as_str(), "xmlns") {
                        self.current_namespaces.add_namespace_prefix(None, value.as_str());
                    }
                },
            }
            i = i + 1;
        }
        proof {
            assert(all.take(n as int) =~= all);
        }
    }

    /// The `definitions` and `schema` roots of a document.
    fn start_root(&mut self, name: &str, local: &str, attrs: &Vec<(String, String)>) -> (r: Result<
        (Option<ParseState>, Option<ImportRequest>),
        Error,
    >)
        requires
            local@ == spec_local_of(name@),
        ensures
            match r {
                Ok((new, imp)) => spec_start_root(old(self)@, name@, attrs_view(attrs@)) == Ok::<
                    _,
                    (),
                >((final(self)@, view_opt_ps(new), view_opt_loc(imp))),
                Err(e) => spec_start_root(old(self)@, name@, attrs_view(attrs@)) is Err && (
                e matches Error::StructuralError),
            },
    {
        if crate::num::str_eq(local, "definitions") {
            match get_attribute(attrs, "targetNamespace") {
                Some(ns) => {
                    self.current_namespaces.push_target_namespace(ns);
                    Ok((Some(ParseState::Definitions), None))
                },
                None => Err(Error::StructuralError),
            }
        } else if crate::num::str_eq(local, "schema") {
            self.start_schema_elem(name, attrs)
        } else {
            Ok((Some(ParseState::Other { name: local.to_owned() }), None))
        }
    }

    /// A `schema` element, at the root or under `types`.
    fn start_schema_elem(&mut self, name: &str, attrs: &Vec<(String, String)>) -> (r: Result<
        (Option<ParseState>, Option<ImportRequest>),
        Error,
    >)
        ensures
            match r {
                Ok((new, imp)) => spec_start_schema_elem(old(self)@, name@, attrs_view(attrs@))
                    == Ok::<_, ()>((final(self)@, view_opt_ps(new), view_opt_loc(imp))),
                Err(e) => spec_start_schema_elem(old(self)@, name@, attrs_view(attrs@)) is Err && (
                e matches Error::StructuralError),
            },
    {
        let (prefix, _) = split_namespaced_name(name);
        match get_attribute(attrs, "targetNamespace") {
            Some(ns) => {
                let owned_prefix = match prefix {
                    Some(p) => Some(p.to_owned()),
                    None => None,
                };
                match self.current_namespaces.lookup_prefix(&owned_prefix) {
                    Some(uri) => {
                        self.current_namespaces.push_target_namespace(ns);
                        self.current_namespaces.add_namespace_prefix(owned_prefix, uri.as_str());
                        Ok((Some(ParseState::Schema), None))
                    },
                    None => Err(Error::StructuralError),
                }
            },
            None => Err(Error::StructuralError),
        }
    }

    /// An `import` or `include` with its location attribute.
    fn start_import(&mut self, attrs: &Vec<(String, String)>, location_attr: &str) -> (r: Result<
        (Option<ParseState>, Option<ImportRequest>),
        Error,
    >)
        ensures
            final(self)@ == old(self)@,
            match r {
                Ok((new, imp)) => spec_start_import(
                    old(self)@,
                    spec_local_of("import"@),
                    attrs_view(attrs@),
                    location_attr@,
                ) == Ok::<_, ()>((final(self)@, view_opt_ps(new), view_opt_loc(imp))),
                Err(e) => spec_start_import(
                    old(self)@,
                    spec_local_of("import"@),
                    attrs_view(attrs@),
                    location_attr@,
                ) is Err && (e matches Error::StructuralError),
            },
    {
        match get_attribute(attrs, location_attr) {
            Some(loc) => {
                let namespace = get_attribute(attrs, "namespace");
                Ok((
                    Some(ParseState::Import { namespace }),
                    Some(ImportRequest { location: loc }),
                ))
            },
            None => Err(Error::StructuralError),
        }
    }

    /// Children of `definitions`.
    fn start_in_definitions(&mut self, local: &str, attrs: &Vec<(String, String)>) -> (r: Result<
        (Option<ParseState>, Option<ImportRequest>),
        Error,
    >)
        ensures
            match r {
                Ok((new, imp)) => spec_start_in_definitions(old(self)@, local@, attrs_view(attrs@))
                    == Ok::<_, ()>((final(self)@, view_opt_ps(new), view_opt_loc(imp))),
                Err(e) => spec_start_in_definitions(old(self)@, local@, attrs_view(attrs@)) is Err
                    && (e matches Error::StructuralError),
            },
    {
        if crate::num::str_eq(local, "import") {
            self.start_import(attrs, "location")
        } else if crate::num::str_eq(local, "types") {
            Ok((Some(ParseState::Types), None))
        } else if crate::num::str_eq(local, "message") {
            match get_attribute(attrs, "name") {
                Some(n) => Ok((Some(ParseState::Message { name: n, parts: Vec::new() }), None)),
                None => Err(Error::StructuralError),
            }
        } else if crate::num::str_eq(local, "portType") {
            match get_attribute(attrs, "name") {
                Some(n) => {
                    let st = ParseState::PortType { name: n, operations: Vec::new() };
                    proof {
                        assert(st@ matches PsView::PortType { operations, .. } ==> operations
                            =~= Seq::<crate::types::OperationView>::empty());
                    }
                    Ok((Some(st), None))
                },
                None => Err(Error::StructuralError),
            }
        } else if crate::num::str_eq(local, "binding") {
            let name = get_attribute(attrs, "name");
            let tyq = get_attribute(attrs, "type");
            match (name, tyq) {
                (Some(n), Some(t)) => match self.resolve_namespace(t.as_str()) {
                    Ok(tyn) => {
                        let st = ParseState::Binding {
                            name: n,
                            ty: tyn,
                            transport: None,
                            operations: Vec::new(),
                        };
                        proof {
                            assert(st@ matches PsView::Binding { operations, .. } ==> operations
                                =~= Seq::<crate::types::BindingOperationView>::empty());
                        }
                        Ok((Some(st), None))
                    },
                    Err(e) => Err(e),
                },
                _ => Err(Error::StructuralError),
            }
        } else if crate::num::str_eq(local, "service") {
            match get_attribute(attrs, "name") {
                Some(n) => {
                    let st = ParseState::Service { name: n, ports: Vec::new() };
                    proof {
                        assert(st@ matches PsView::Service { ports, .. } ==> ports =~= Seq::<
                            crate::types::PortView,
                        >::empty());
                    }
                    Ok((Some(st), None))
                },
                None => Err(Error::StructuralError),
            }
        } else {
            Ok((Some(ParseState::Other { name: local.to_owned() }), None))
        }
    }

    /// Children of `schema`.
    fn start_in_schema(&mut self, local: &str, attrs: &Vec<(String, String)>) -> (r: Result<
        (Option<ParseState>, Option<ImportRequest>),
        Error,
    >)
        ensures
            match r {
                Ok((new, imp)) => spec_start_in_schema(old(self)@, local@, attrs_view(attrs@))
                    == Ok::<_, ()>((final(self)@, view_opt_ps(new), view_opt_loc(imp))),
                Err(e) => spec_start_in_schema(old(self)@, local@, attrs_view(attrs@)) is Err && (
                e matches Error::StructuralError),
            },
    {
        if crate::num::str_eq(local, "element") {
            match get_attribute(attrs, "name") {
                Some(n) => match get_attribute(attrs, "type") {
                    Some(t) => match self.resolve_namespace(t.as_str()) {
                        Ok(tyn) => Ok((
                            Some(
                                ParseState::Element {
                                    name: n,
                                    kind: Some(TypeKind::Alias(tyn)),
                                },
                            ),
                            None,
                        )),
                        Err(e) => Err(e),
                    },
                    None => Ok((Some(ParseState::Element { name: n, kind: None }), None)),
                },
                None => Err(Error::StructuralError),
            }
        } else if crate::num::str_eq(local, "complexType") {
            match get_attribute(attrs, "name") {
                Some(n) => Ok((Some(ParseState::ComplexType { name: Some(n), kind: None }), None)),
                None => Err(Error::StructuralError),
            }
        } else if crate::num::str_eq(local, "simpleType") {
            match get_attribute(attrs, "name") {
                Some(n) => Ok((Some(ParseState::SimpleType { name: n, ty: None }), None)),
                None => Err(Error::StructuralError),
            }
        } else if crate::num::str_eq(local, "include") || crate::num::str_eq(local, "import") {
            self.start_import(attrs, "schemaLocation")
        } else {
            Ok((Some(ParseState::Other { name: local.to_owned() }), None))
        }
    }

    /// `extension` inside `complexContent`.
    fn start_in_complex_content(&mut self, local: &str, attrs: &Vec<(String, String)>) -> (r:
        Result<(Option<ParseState>, Option<ImportRequest>), Error>)
        ensures
            match r {
                Ok((new, imp)) => spec_start_in_complex_content(
                    old(self)@,
                    local@,
                    attrs_view(attrs@),
                ) == Ok::<_, ()>((final(self)@, view_opt_ps(new), view_opt_loc(imp))),
                Err(e) => spec_start_in_complex_content(old(self)@, local@, attrs_view(attrs@))
                    is Err && (e matches Error::StructuralError),
            },
    {
        if crate::num::str_eq(local, "extension") {
            match get_attribute(attrs, "base") {
                Some(b) => match self.resolve_namespace(b.as_str()) {
                    Ok(tyn) => {
                        let ghost tyn_view = tyn@;
                        match self.resolve_namespace("tns:base") {
                            Ok(fname) => {
                                let field = Field { name: fname, ty: FieldKind::Type(tyn) };
                                let mut fields: Vec<Field> = Vec::new();
                                fields.push(field);
                                proof {
                                    crate::types::lemma_view_fields(fields@);
                                    assert(crate::types::view_fields(fields@) =~= seq![
                                        fields@[0]@,
                                    ]);
                                }
                                Ok((Some(ParseState::ComplexExtension { fields }), None))
                            },
                            Err(e) => Err(e),
                        }
                    },
                    Err(e) => Err(e),
                },
                None => Err(Error::StructuralError),
            }
        } else {
            Ok((Some(ParseState::Other { name: local.to_owned() }), None))
        }
    }

    /// `extension` inside `simpleContent`.
    fn start_in_simple_content(&mut self, local: &str, attrs: &Vec<(String, String)>) -> (r:
        Result<(Option<ParseState>, Option<ImportRequest>), Error>)
        ensures
            match r {
                Ok((new, imp)) => spec_start_in_simple_content(
                    old(self)@,
                    local@,
                    attrs_view(attrs@),
                ) == Ok::<_, ()>((final(self)@, view_opt_ps(new), view_opt_loc(imp))),
                Err(e) => spec_start_in_simple_content(old(self)@, local@, attrs_view(attrs@))
                    is Err && (e matches Error::StructuralError),
            },
    {
        if crate::num::str_eq(local, "extension") {
            match get_attribute(attrs, "base") {
                Some(b) => match self.resolve_namespace(b.as_str()) {
                    Ok(tyn) => Ok((Some(ParseState::SimpleExtension { ty: tyn }), None)),
                    Err(e) => Err(e),
                },
                None => Err(Error::StructuralError),
            }
        } else {
            Ok((Some(ParseState::Other { name: local.to_owned() }), None))
        }
    }

    /// `restriction` inside `simpleType`.
    fn start_in_simple_type(&mut self, local: &str, attrs: &Vec<(String, String)>) -> (r: Result<
        (Option<ParseState>, Option<ImportRequest>),
        Error,
    >)
        ensures
            match r {
                Ok((new, imp)) => spec_start_in_simple_type(old(self)@, local@, attrs_view(attrs@))
                    == Ok::<_, ()>((final(self)@, view_opt_ps(new), view_opt_loc(imp))),
                Err(e) => spec_start_in_simple_type(old(self)@, local@, attrs_view(attrs@)) is Err
                    && (e matches Error::StructuralError),
            },
    {
        if crate::num::str_eq(local, "restriction") {
            match get_attribute(attrs, "base") {
                Some(b) => match self.resolve_namespace(b.as_str()) {
                    Ok(tyn) => Ok((Some(ParseState::Restriction { ty: tyn }), None)),
                    Err(e) => Err(e),
                },
                None => Err(Error::StructuralError),
            }
        } else {
            Ok((Some(ParseState::Other { name: local.to_owned() }), None))
        }
    }

    /// `element` inside `sequence`.
    fn start_in_sequence(&mut self, local: &str, attrs: &Vec<(String, String)>) -> (r: Result<
        (Option<ParseState>, Option<ImportRequest>),
        Error,
    >)
        ensures
            match r {
                Ok((new, imp)) => spec_start_in_sequence(old(self)@, local@, attrs_view(attrs@))
                    == Ok::<_, ()>((final(self)@, view_opt_ps(new), view_opt_loc(imp))),
                Err(e) => spec_start_in_sequence(old(self)@, local@, attrs_view(attrs@)) is Err && (
                e matches Error::StructuralError),
            },
    {
        if crate::num::str_eq(local, "element") {
            match get_attribute(attrs, "name") {
                Some(n) => match get_attribute(attrs, "type") {
                    Some(t) => match self.resolve_namespace(t.as_str()) {
                        Ok(tyn) => Ok((
                            Some(
                                ParseState::SequenceElement {
                                    name: n,
                                    ty: Some(tyn),
                                    inner: None,
                                },
                            ),
                            None,
                        )),
                        Err(e) => Err(e),
                    },
                    None => Ok((
                        Some(ParseState::SequenceElement { name: n, ty: None, inner: None }),
                        None,
                    )),
                },
                None => Err(Error::StructuralError),
            }
        } else {
            Ok((Some(ParseState::Other { name: local.to_owned() }), None))
        }
    }

    /// `part` inside `message`.
    fn start_in_message(&mut self, local: &str, attrs: &Vec<(String, String)>) -> (r: Result<
        (Option<ParseState>, Option<ImportRequest>),
        Error,
    >)
        ensures
            match r {
                Ok((new, imp)) => spec_start_in_message(old(self)@, local@, attrs_view(attrs@))
                    == Ok::<_, ()>((final(self)@, view_opt_ps(new), view_opt_loc(imp))),
                Err(e) => spec_start_in_message(old(self)@, local@, attrs_view(attrs@)) is Err && (
                e matches Error::StructuralError),
            },
    {
        if crate::num::str_eq(local, "part") {
            let name = get_attribute(attrs, "name");
            let element = get_attribute(attrs, "element");
            match (name, element) {
                (Some(n), Some(el)) => match self.resolve_namespace(el.as_str()) {
                    Ok(eln) => Ok((Some(ParseState::Part { name: n, element: eln }), None)),
                    Err(e) => Err(e),
                },
                _ => Err(Error::StructuralError),
            }
        } else {
            Ok((Some(ParseState::Other { name: local.to_owned() }), None))
        }
    }

    /// `documentation`, `input` and `output` inside `operation`.
    fn start_in_operation(&mut self, local: &str, attrs: &Vec<(String, String)>) -> (r: Result<
        (Option<ParseState>, Option<ImportRequest>),
        Error,
    >)
        ensures
            match r {
                Ok((new, imp)) => spec_start_in_operation(old(self)@, local@, attrs_view(attrs@))
                    == Ok::<_, ()>((final(self)@, view_opt_ps(new), view_opt_loc(imp))),
                Err(e) => spec_start_in_operation(old(self)@, local@, attrs_view(attrs@)) is Err
                    && (e matches Error::StructuralError),
            },
    {
        if crate::num::str_eq(local, "documentation") {
            Ok((Some(ParseState::Documentation { text: None }), None))
        } else if crate::num::str_eq(local, "input") || crate::num::str_eq(local, "output") {
            match get_attribute(attrs, "message") {
                Some(mq) => match self.resolve_namespace(mq.as_str()) {
                    Ok(mn) => {
                        if crate::num::str_eq(local, "input") {
                            Ok((Some(ParseState::Input { message: mn }), None))
                        } else {
                            Ok((Some(ParseState::Output { message: mn }), None))
                        }
                    },
                    Err(e) => Err(e),
                },
                None => Err(Error::StructuralError),
            }
        } else {
            Ok((Some(ParseState::Other { name: local.to_owned() }), None))
        }
    }

    /// The nested soap `binding` and the `operation`s of a `binding`.
    fn start_in_binding(&mut self, local: &str, attrs: &Vec<(String, String)>) -> (r: Result<
        (Option<ParseState>, Option<ImportRequest>),
        Error,
    >)
        ensures
            match r {
                Ok((new, imp)) => spec_start_in_binding(old(self)@, local@, attrs_view(attrs@))
                    == Ok::<_, ()>((final(self)@, view_opt_ps(new), view_opt_loc(imp))),
                Err(e) => spec_start_in_binding(old(self)@, local@, attrs_view(attrs@)) is Err && (
                e matches Error::StructuralError),
            },
    {
        if crate::num::str_eq(local, "binding") {
            match get_attribute(attrs, "transport") {
                Some(t) => Ok((Some(ParseState::Transport { transport: t }), None)),
                None => Err(Error::StructuralError),
            }
        } else if crate::num::str_eq(local, "operation") {
            match get_attribute(attrs, "name") {
                Some(n) => Ok((
                    Some(
                        ParseState::BindingOperation {
                            name: n,
                            action: None,
                            style: None,
                            input: None,
                            output: None,
                        },
                    ),
                    None,
                )),
                None => Err(Error::StructuralError),
            }
        } else {
            Ok((Some(ParseState::Other { name: local.to_owned() }), None))
        }
    }

    /// The nested soap `operation`, `input` and `output` of a binding
    /// operation.
    fn start_in_binding_operation(&mut self, local: &str, attrs: &Vec<(String, String)>) -> (r:
        Result<(Option<ParseState>, Option<ImportRequest>), Error>)
        ensures
            match r {
                Ok((new, imp)) => spec_start_in_binding_operation(
                    old(self)@,
                    local@,
                    attrs_view(attrs@),
                ) == Ok::<_, ()>((final(self)@, view_opt_ps(new), view_opt_loc(imp))),
                Err(e) => spec_start_in_binding_operation(old(self)@, local@, attrs_view(attrs@))
                    is Err && (e matches Error::StructuralError),
            },
    {
        if crate::num::str_eq(local, "operation") {
            let action = get_attribute(attrs, "soapAction");
            let style = get_attribute(attrs, "style");
            match (action, style) {
                (Some(a), Some(s)) => Ok((
                    Some(ParseState::OperationAction { action: a, style: s }),
                    None,
                )),
                _ => Err(Error::StructuralError),
            }
        } else if crate::num::str_eq(local, "input") {
            Ok((Some(ParseState::BindingInput { body: None }), None))
        } else if crate::num::str_eq(local, "output") {
            Ok((Some(ParseState::BindingOutput { body: None }), None))
        } else {
            Ok((Some(ParseState::Other { name: local.to_owned() }), None))
        }
    }

    /// The soap `body` of a binding input or output.
    fn start_in_binding_io(&mut self, local: &str, attrs: &Vec<(String, String)>) -> (r: Result<
        (Option<ParseState>, Option<ImportRequest>),
        Error,
    >)
        ensures
            match r {
                Ok((new, imp)) => spec_start_in_binding_io(old(self)@, local@, attrs_view(attrs@))
                    == Ok::<_, ()>((final(self)@, view_opt_ps(new), view_opt_loc(imp))),
                Err(e) => spec_start_in_binding_io(old(self)@, local@, attrs_view(attrs@)) is Err
                    && (e matches Error::StructuralError),
            },
    {
        if crate::num::str_eq(local, "body") {
            match get_attribute(attrs, "use") {
                Some(u) => Ok((Some(ParseState::BindingBody { body: u }), None)),
                None => Err(Error::StructuralError),
            }
        } else {
            Ok((Some(ParseState::Other { name: local.to_owned() }), None))
        }
    }

    /// `port` inside `service`.
    fn start_in_service(&mut self, local: &str, attrs: &Vec<(String, String)>) -> (r: Result<
        (Option<ParseState>, Option<ImportRequest>),
        Error,
    >)
        ensures
            match r {
                Ok((new, imp)) => spec_start_in_service(old(self)@, local@, attrs_view(attrs@))
                    == Ok::<_, ()>((final(self)@, view_opt_ps(new), view_opt_loc(imp))),
                Err(e) => spec_start_in_service(old(self)@, local@, attrs_view(attrs@)) is Err && (
                e matches Error::StructuralError),
            },
    {
        if crate::num::str_eq(local, "port") {
            let name = get_attribute(attrs, "name");
            let binding = get_attribute(attrs, "binding");
            match (name, binding) {
                (Some(n), Some(b)) => match self.resolve_namespace(b.as_str()) {
                    Ok(bn) => Ok((
                        Some(ParseState::Port { name: n, binding: bn, address: None }),
                        None,
                    )),
                    Err(e) => Err(e),
                },
                _ => Err(Error::StructuralError),
            }
        } else {
            Ok((Some(ParseState::Other { name: local.to_owned() }), None))
        }
    }

    /// `address` inside `port`.
    fn start_in_port(&mut self, local: &str, attrs: &Vec<(String, String)>) -> (r: Result<
        (Option<ParseState>, Option<ImportRequest>),
        Error,
    >)
        ensures
            match r {
                Ok((new, imp)) => spec_start_in_port(old(self)@, local@, attrs_view(attrs@))
                    == Ok::<_, ()>((final(self)@, view_opt_ps(new), view_opt_loc(imp))),
                Err(e) => spec_start_in_port(old(self)@, local@, attrs_view(attrs@)) is Err && (
                e matches Error::StructuralError),
            },
    {
        if crate::num::str_eq(local, "address") {
            match get_attribute(attrs, "location") {
                Some(l) => Ok((Some(ParseState::Address { location: l }), None)),
                None => Err(Error::StructuralError),
            }
        } else {
            Ok((Some(ParseState::Other { name: local.to_owned() }), None))
        }
    }

    /// Handles an element open in the given stack context, per the
    /// transition table; the returned state, if any, is pushed by the
    /// caller, after any requested import has been parsed inline.
    fn handle_start(
        &mut self,
        state: Option<&ParseState>,
        name: &str,
        attrs: &Vec<(String, String)>,
    ) -> (r: Result<(Option<ParseState>, Option<ImportRequest>), Error>)
        ensures
            match r {
                Ok((new, imp)) => spec_handle_start(
                    old(self)@,
                    view_opt_ref_ps(state),
                    name@,
                    attrs_view(attrs@),
                ) == Ok::<_, ()>((final(self)@, view_opt_ps(new), view_opt_loc(imp))),
                Err(e) => spec_handle_start(
                    old(self)@,
                    view_opt_ref_ps(state),
                    name@,
                    attrs_view(attrs@),
                ) is Err && (e matches Error::StructuralError),
            },
    {
        self.scan_xmlns(attrs);
        let (_, local) = split_namespaced_name(name);
        match state {
            None => self.start_root(name, local, attrs),
            Some(st) => match st {
                ParseState::Definitions => self.start_in_definitions(local, attrs),
                ParseState::Types => {
                    if crate::num::str_eq(local, "schema") {
                        self.start_schema_elem(name, attrs)
                    } else if crate::num::str_eq(local, "import") {
                        self.start_import(attrs, "schemaLocation")
                    } else {
                        Ok((Some(ParseState::Other { name: local.to_owned() }), None))
                    }
                },
                ParseState::Schema => self.start_in_schema(local, attrs),
                ParseState::Element { .. } => {
                    if crate::num::str_eq(local, "complexType") {
                        Ok((Some(ParseState::ComplexType { name: None, kind: None }), None))
                    } else {
                        Ok((Some(ParseState::Other { name: local.to_owned() }), None))
                    }
                },
                ParseState::ComplexType { .. } => {
                    if crate::num::str_eq(local, "sequence") {
                        let st = ParseState::Sequence { fields: Vec::new() };
                        Ok((Some(st), None))
                    } else if crate::num::str_eq(local, "simpleContent") {
                        Ok((Some(ParseState::SimpleContent { ty: None }), None))
                    } else if crate::num::str_eq(local, "complexContent") {
                        let st = ParseState::ComplexContent { fields: Vec::new() };
                        Ok((Some(st), None))
                    } else {
                        Ok((Some(ParseState::Other { name: local.to_owned() }), None))
                    }
                },
                ParseState::ComplexContent { .. } => self.start_in_complex_content(local, attrs),
                ParseState::ComplexExtension { .. } => {
                    if crate::num::str_eq(local, "sequence") {
                        let st = ParseState::Sequence { fields: Vec::new() };
                        Ok((Some(st), None))
                    } else {
                        Ok((Some(ParseState::Other { name: local.to_owned() }), None))
                    }
                },
                ParseState::SimpleContent { .. } => self.start_in_simple_content(local, attrs),
                ParseState::SimpleType { .. } => self.start_in_simple_type(local, attrs),
                ParseState::Sequence { .. } => self.start_in_sequence(local, attrs),
                ParseState::SequenceElement { .. } => {
                    if crate::num::str_eq(local, "complexType") {
                        Ok((Some(ParseState::ComplexType { name: None, kind: None }), None))
                    } else {
                        Ok((Some(ParseState::Other { name: local.to_owned() }), None))
                    }
                },
                ParseState::Message { .. } => self.start_in_message(local, attrs),
                ParseState::PortType { .. } => {
                    if crate::num::str_eq(local, "operation") {
                        match get_attribute(attrs, "name") {
                            Some(n) => Ok((
                                Some(
                                    ParseState::Operation {
                                        name: n,
                                        documentation: None,
                                        input: None,
                                        output: None,
                                    },
                                ),
                                None,
                            )),
                            None => Err(Error::StructuralError),
                        }
                    } else {
                        Ok((Some(ParseState::Other { name: local.to_owned() }), None))
                    }
                },
                ParseState::Operation { .. } => self.start_in_operation(local, attrs),
                ParseState::Binding { .. } => self.start_in_binding(local, attrs),
                ParseState::BindingOperation { .. } => self.start_in_binding_operation(
                    local,
                    attrs,
                ),
                ParseState::BindingInput { .. } => self.start_in_binding_io(local, attrs),
                ParseState::BindingOutput { .. } => self.start_in_binding_io(local, attrs),
                ParseState::Service { .. } => self.start_in_service(local, attrs),
                ParseState::Port { .. } => self.start_in_port(local, attrs),
                ParseState::Import { .. } => Err(Error::StructuralError),
                _ => Ok((Some(ParseState::Other { name: local.to_owned() }), None)),
            },
        }
    }

    /// Qualifies `name` with the innermost target namespace.
    fn tns(&mut self, name: String) -> (r: Result<NamespacedName, Error>)
        ensures
            final(self)@.current == old(self)@.current,
            final(self)@.definition == old(self)@.definition,
            final(self)@.root == old(self)@.root,
            match r {
                Ok(n) => spec_tns(old(self)@, name@) == Ok::<_, ()>((n@, final(self)@)),
                Err(e) => spec_tns(old(self)@, name@) is Err && (e matches Error::StructuralError)
                    && final(self)@ == old(self)@,
            },
    {
        self.current_namespaces.target_namespaced(&mut self.namespaces, name)
    }

    /// Appends a finished named type to the definition.
    fn push_type(&mut self, name: NamespacedName, kind: TypeKind)
        ensures
            final(self)@ == (ParserView {
                definition: crate::types::DefinitionView {
                    types: old(self)@.definition.types.push(
                        crate::types::TypeView { name: name@, kind: kind@ },
                    ),
                    ..old(self)@.definition
                },
                ..old(self)@
            }),
    {
        let t = Type { name, kind };
        let ghost tv = t@;
        self.definition.types.push(t);
        proof {
            crate::types::lemma_seq_view_push(old(self).definition.types@, t);
        }
    }


    /// Appends a finished message to the definition.
    fn push_message(&mut self, m: Message)
        ensures
            final(self)@ == (ParserView {
                definition: crate::types::DefinitionView {
                    messages: old(self)@.definition.messages.push(m@),
                    ..old(self)@.definition
                },
                ..old(self)@
            }),
    {
        proof {
            crate::types::lemma_seq_view_push(self.definition.messages@, m);
        }
        self.definition.messages.push(m);
    }

    /// Appends a finished port type to the definition.
    fn push_port_type(&mut self, pt: PortType)
        ensures
            final(self)@ == (ParserView {
                definition: crate::types::DefinitionView {
                    port_types: old(self)@.definition.port_types.push(pt@),
                    ..old(self)@.definition
                },
                ..old(self)@
            }),
    {
        proof {
            crate::types::lemma_seq_view_push(self.definition.port_types@, pt);
        }
        self.definition.port_types.push(pt);
    }

    /// Appends a finished binding to the definition.
    fn push_binding(&mut self, b: Binding)
        ensures
            final(self)@ == (ParserView {
                definition: crate::types::DefinitionView {
                    bindings: old(self)@.definition.bindings.push(b@),
                    ..old(self)@.definition
                },
                ..old(self)@
            }),
    {
        proof {
            crate::types::lemma_seq_view_push(self.definition.bindings@, b);
        }
        self.definition.bindings.push(b);
    }

    /// Appends a finished service to the definition.
    fn push_service(&mut self, s: Service)
        ensures
            final(self)@ == (ParserView {
                definition: crate::types::DefinitionView {
                    services: old(self)@.definition.services.push(s@),
                    ..old(self)@.definition
                },
                ..old(self)@
            }),
    {
        proof {
            crate::types::lemma_seq_view_push(self.definition.services@, s);
        }
        self.definition.services.push(s);
    }

    /// Folds a finished frame into its parent, per the close rules.
    fn fold_end(&mut self, fin: ParseState, next: Option<ParseState>) -> (r: Result<
        Option<ParseState>,
        Error,
    >)
        ensures
            match r {
                Ok(next2) => spec_fold_end(old(self)@, fin@, view_opt_ps(next)) == Ok::<_, ()>(
                    (final(self)@, view_opt_ps(next2)),
                ),
                Err(e) => spec_fold_end(old(self)@, fin@, view_opt_ps(next)) is Err && (
                e matches Error::StructuralError),
            },
    {
        match fin {
            ParseState::Definitions => {
                self.current_namespaces.pop_target_namespace();
                Ok(next)
            },
            ParseState::Schema => {
                self.current_namespaces.pop_target_namespace();
                Ok(next)
            },
            ParseState::Element { name, kind } => match kind {
                Some(k) => match self.tns(name) {
                    Ok(n) => {
                        self.push_type(n, k);
                        Ok(next)
                    },
                    Err(e) => Err(e),
                },
                None => Err(Error::StructuralError),
            },
            ParseState::ComplexType { name, kind } => match next {
                Some(ParseState::SequenceElement { name: sn, ty: _, inner: _ }) => match name {
                    Some(nm) => match self.tns(nm) {
                        Ok(n) => Ok(
                            Some(
                                ParseState::SequenceElement {
                                    name: sn,
                                    ty: Some(n),
                                    inner: kind,
                                },
                            ),
                        ),
                        Err(e) => Err(e),
                    },
                    None => Ok(
                        Some(ParseState::SequenceElement { name: sn, ty: None, inner: kind }),
                    ),
                },
                Some(ParseState::Element { name: en, kind: _ }) => {
                    if name.is_some() {
                        Err(Error::StructuralError)
                    } else {
                        Ok(Some(ParseState::Element { name: en, kind }))
                    }
                },
                _ => match (kind, name) {
                    (Some(k), Some(nm)) => match self.tns(nm) {
                        Ok(n) => {
                            self.push_type(n, k);
                            Ok(next)
                        },
                        Err(e) => Err(e),
                    },
                    _ => Err(Error::StructuralError),
                },
            },
            ParseState::ComplexContent { fields } => match next {
                Some(ParseState::ComplexType { name: cn, kind: None }) => Ok(
                    Some(
                        ParseState::ComplexType { name: cn, kind: Some(TypeKind::Struct(fields)) },
                    ),
                ),
                _ => Err(Error::StructuralError),
            },
            ParseState::ComplexExtension { fields } => match next {
                Some(ParseState::ComplexContent { fields: cf }) => {
                    let mut cf = cf;
                    let mut fields = fields;
                    let ghost a = cf@;
                    let ghost b = fields@;
                    cf.append(&mut fields);
                    proof {
                        crate::types::lemma_view_fields_concat(a, b);
                    }
                    Ok(Some(ParseState::ComplexContent { fields: cf }))
                },
                _ => Err(Error::StructuralError),
            },
            ParseState::SimpleContent { ty } => match next {
                Some(ParseState::ComplexType { name: cn, kind: None }) => match ty {
                    Some(t) => Ok(
                        Some(
                            ParseState::ComplexType {
                                name: cn,
                                kind: Some(TypeKind::Alias(t)),
                            },
                        ),
                    ),
                    None => Err(Error::StructuralError),
                },
                _ => Err(Error::StructuralError),
            },
            ParseState::SimpleExtension { ty } => match next {
                Some(ParseState::SimpleContent { .. }) => Ok(
                    Some(ParseState::SimpleContent { ty: Some(ty) }),
                ),
                _ => Err(Error::StructuralError),
            },
            ParseState::SimpleType { name, ty } => match ty {
                Some(t) => match self.tns(name) {
                    Ok(n) => {
                        self.push_type(n, TypeKind::Simple(t));
                        Ok(next)
                    },
                    Err(e) => Err(e),
                },
                None => Err(Error::StructuralError),
            },
            ParseState::Restriction { ty } => match next {
                Some(ParseState::SimpleType { name: sn, ty: _ }) => Ok(
                    Some(ParseState::SimpleType { name: sn, ty: Some(ty) }),
                ),
                _ => Err(Error::StructuralError),
            },
            ParseState::Sequence { fields } => match next {
                Some(ParseState::ComplexType { name: cn, kind: None }) => Ok(
                    Some(
                        ParseState::ComplexType { name: cn, kind: Some(TypeKind::Struct(fields)) },
                    ),
                ),
                Some(ParseState::ComplexExtension { fields: ef }) => {
                    let mut ef = ef;
                    let mut fields = fields;
                    let ghost a = ef@;
                    let ghost b = fields@;
                    ef.append(&mut fields);
                    proof {
                        crate::types::lemma_view_fields_concat(a, b);
                    }
                    Ok(Some(ParseState::ComplexExtension { fields: ef }))
                },
                _ => Err(Error::StructuralError),
            },
            ParseState::SequenceElement { name, ty, inner } => match next {
                Some(ParseState::Sequence { fields }) => match self.tns(name) {
                    Ok(n) => match inner {
                        Some(k) => {
                            let mut fields = fields;
                            let f = Field { name: n, ty: FieldKind::Inner(k) };
                            proof {
                                crate::types::lemma_view_fields_push(fields@, f);
                            }
                            fields.push(f);
                            Ok(Some(ParseState::Sequence { fields }))
                        },
                        None => match ty {
                            Some(t) => {
                                let mut fields = fields;
                                let f = Field { name: n, ty: FieldKind::Type(t) };
                                proof {
                                    crate::types::lemma_view_fields_push(fields@, f);
                                }
                                fields.push(f);
                                Ok(Some(ParseState::Sequence { fields }))
                            },
                            None => Err(Error::StructuralError),
                        },
                    },
                    Err(e) => Err(e),
                },
                _ => Err(Error::StructuralError),
            },
            ParseState::Message { name, parts } => match self.tns(name) {
                Ok(n) => {
                    self.push_message(Message { name: n, parts });
                    Ok(next)
                },
                Err(e) => Err(e),
            },
            ParseState::Part { name, element } => match next {
                Some(ParseState::Message { name: mn, parts }) => match self.tns(name) {
                    Ok(n) => {
                        let mut parts = parts;
                        let f = Field { name: n, ty: FieldKind::Type(element) };
                        proof {
                            crate::types::lemma_view_fields_push(parts@, f);
                        }
                        parts.push(f);
                        Ok(Some(ParseState::Message { name: mn, parts }))
                    },
                    Err(e) => Err(e),
                },
                _ => Err(Error::StructuralError),
            },
            ParseState::PortType { name, operations } => match self.tns(name) {
                Ok(n) => {
                    self.push_port_type(PortType { name: n, operations });
                    Ok(next)
                },
                Err(e) => Err(e),
            },
            ParseState::Operation { name, documentation, input, output } => match next {
                Some(ParseState::PortType { name: pn, operations }) => match self.tns(name) {
                    Ok(n) => {
                        let mut operations = operations;
                        let op = Operation { name: n, documentation, input, output };
                        proof {
                            crate::types::lemma_seq_view_push(operations@, op);
                        }
                        operations.push(op);
                        Ok(Some(ParseState::PortType { name: pn, operations }))
                    },
                    Err(e) => Err(e),
                },
                _ => Err(Error::StructuralError),
            },
            ParseState::Documentation { text } => match next {
                Some(ParseState::Operation { name, documentation: _, input, output }) => Ok(
                    Some(ParseState::Operation { name, documentation: text, input, output }),
                ),
                _ => Err(Error::StructuralError),
            },
            ParseState::Input { message } => match next {
                Some(ParseState::Operation { name, documentation, input: None, output }) => Ok(
                    Some(
                        ParseState::Operation {
                            name,
                            documentation,
                            input: Some(message),
                            output,
                        },
                    ),
                ),
                _ => Err(Error::StructuralError),
            },
            ParseState::Output { message } => match next {
                Some(ParseState::Operation { name, documentation, input, output: None }) => Ok(
                    Some(
                        ParseState::Operation {
                            name,
                            documentation,
                            input,
                            output: Some(message),
                        },
                    ),
                ),
                _ => Err(Error::StructuralError),
            },
            ParseState::Transport { transport } => match next {
                Some(ParseState::Binding { name, ty, transport: None, operations }) => Ok(
                    Some(
                        ParseState::Binding {
                            name,
                            ty,
                            transport: Some(transport),
                            operations,
                        },
                    ),
                ),
                _ => Err(Error::StructuralError),
            },
            ParseState::Binding { name, ty, transport, operations } => match self.tns(name) {
                Ok(n) => match transport {
                    Some(t) => {
                        self.push_binding(Binding { name: n, ty, transport: t, operations });
                        Ok(next)
                    },
                    None => Err(Error::StructuralError),
                },
                Err(e) => Err(e),
            },
            ParseState::BindingOperation { name, action, style, input, output } => match next {
                Some(ParseState::Binding { name: bn, ty, transport, operations }) => match self.tns(
                    name,
                ) {
                    Ok(n) => match (action, style) {
                        (Some(a), Some(s)) => {
                            let mut operations = operations;
                            let bop = BindingOperation {
                                name: n,
                                action: a,
                                style: s,
                                input,
                                output,
                            };
                            proof {
                                crate::types::lemma_seq_view_push(operations@, bop);
                            }
                            operations.push(bop);
                            Ok(
                                Some(
                                    ParseState::Binding { name: bn, ty, transport, operations },
                                ),
                            )
                        },
                        _ => Err(Error::StructuralError),
                    },
                    Err(e) => Err(e),
                },
                _ => Err(Error::StructuralError),
            },
            ParseState::OperationAction { action, style } => match next {
                Some(
                    ParseState::BindingOperation { name, action: _, style: _, input, output },
                ) => Ok(
                    Some(
                        ParseState::BindingOperation {
                            name,
                            action: Some(action),
                            style: Some(style),
                            input,
                            output,
                        },
                    ),
                ),
                _ => Err(Error::StructuralError),
            },
            ParseState::BindingInput { body } => match next {
                Some(
                    ParseState::BindingOperation { name, action, style, input: _, output },
                ) => Ok(
                    Some(
                        ParseState::BindingOperation {
                            name,
                            action,
                            style,
                            input: body,
                            output,
                        },
                    ),
                ),
                _ => Err(Error::StructuralError),
            },
            ParseState::BindingOutput { body } => match next {
                Some(
                    ParseState::BindingOperation { name, action, style, input, output: _ },
                ) => Ok(
                    Some(
                        ParseState::BindingOperation {
                            name,
                            action,
                            style,
                            input,
                            output: body,
                        },
                    ),
                ),
                _ => Err(Error::StructuralError),
            },
            ParseState::BindingBody { body } => match next {
                Some(ParseState::BindingInput { .. }) => Ok(
                    Some(ParseState::BindingInput { body: Some(body) }),
                ),
                Some(ParseState::BindingOutput { .. }) => Ok(
                    Some(ParseState::BindingOutput { body: Some(body) }),
                ),
                _ => Err(Error::StructuralError),
            },
            ParseState::Service { name, ports } => match self.tns(name) {
                Ok(n) => {
                    self.push_service(Service { name: n, ports });
                    Ok(next)
                },
                Err(e) => Err(e),
            },
            ParseState::Port { name, binding, address } => match next {
                Some(ParseState::Service { name: sn, ports }) => match self.tns(name) {
                    Ok(n) => match address {
                        Some(a) => {
                            let mut ports = ports;
                            let port = Port { name: n, binding, location: a };
                            proof {
                                crate::types::lemma_seq_view_push(ports@, port);
                            }
                            ports.push(port);
                            Ok(Some(ParseState::Service { name: sn, ports }))
                        },
                        None => Err(Error::StructuralError),
                    },
                    Err(e) => Err(e),
                },
                _ => Err(Error::StructuralError),
            },
            ParseState::Address { location } => match next {
                Some(ParseState::Port { name, binding, address: _ }) => Ok(
                    Some(ParseState::Port { name, binding, address: Some(location) }),
                ),
                _ => Err(Error::StructuralError),
            },
            _ => Ok(next),
        }
    }

    /// Handles an element close: pops the finished frame and folds it into
    /// its parent.
    fn handle_end(&mut self, stack: &mut Vec<ParseState>) -> (r: Result<(), Error>)
        ensures
            match r {
                Ok(_) => spec_handle_end(old(self)@, crate::types::seq_view(old(stack)@)) == Ok::<
                    _,
                    (),
                >((final(self)@, crate::types::seq_view(final(stack)@))),
                Err(e) => spec_handle_end(old(self)@, crate::types::seq_view(old(stack)@)) is Err
                    && (e matches Error::StructuralError),
            },
    {
        proof {
            crate::types::lemma_seq_view_index(stack@);
        }
        let fin = match stack.pop() {
            Some(s) => s,
            None => {
                proof {
                    assert(crate::types::seq_view(stack@).len() == 0);
                }
                return Ok(());
            },
        };
        proof {
            crate::types::lemma_seq_view_drop_last(old(stack)@);
            crate::types::lemma_seq_view_index(stack@);
        }
        let ghost rest = crate::types::seq_view(old(stack)@).drop_last();
        let next = stack.pop();
        proof {
            if rest.len() > 0 {
                crate::types::lemma_seq_view_drop_last(old(stack)@.drop_last());
            }
        }
        match self.fold_end(fin, next) {
            Ok(next2) => {
                match next2 {
                    Some(s) => {
                        proof {
                            crate::types::lemma_seq_view_push(stack@, s);
                        }
                        stack.push(s);
                    },
                    None => {},
                }
                Ok(())
            },
            Err(e) => Err(e),
        }
    }

    /// Handles character data: meaningful only inside `documentation`.
    fn handle_text(&mut self, stack: &mut Vec<ParseState>, text: &str)
        ensures
            final(self)@ == old(self)@,
            crate::types::seq_view(final(stack)@) == spec_handle_text(
                crate::types::seq_view(old(stack)@),
                text@,
            ),
    {
        proof {
            crate::types::lemma_seq_view_index(stack@);
            if stack@.len() > 0 {
                crate::types::lemma_seq_view_drop_last(stack@);
            }
        }
        let is_doc = match stack.last() {
            Some(ParseState::Documentation { .. }) => true,
            _ => false,
        };
        if is_doc {
            let _ = stack.pop();
            let s = ParseState::Documentation { text: Some(text.to_owned()) };
            proof {
                crate::types::lemma_seq_view_push(stack@, s);
            }
            stack.push(s);
        }
    }
}


// ---------------------------------------------------------------------
// Documents and the parse loop
// ---------------------------------------------------------------------
/// How deep `import`/`include` chains may nest before the parser gives
/// up, a guard against reference cycles.
pub const MAX_IMPORT_DEPTH: u32 = 32;

/// A document handed to the parser: its absolute URL and its significant
/// events.
#[derive(Debug)]
pub struct Document {
    pub url: String,
    pub events: Vec<XmlEvent>,
}

/// The ghost value of a [`Document`].
pub struct DocView {
    pub url: Seq<char>,
    pub events: Seq<crate::event::EventView>,
}

impl View for Document {
    type V = DocView;

    open spec fn view(&self) -> DocView {
        DocView { url: self.url@, events: crate::types::seq_view(self.events@) }
    }
}

impl Document {
    /// Decodes a document into its events; the text of WSDL documents is
    /// kept exactly as written (untrimmed), and contiguous character data
    /// arrives as one event per run.
    pub fn from_bytes(url: String, bytes: Vec<u8>) -> (r: Result<Document, Error>)
        ensures
            r matches Ok(d) ==> d.url@ == url@ && crate::xmlio::no_adjacent_text(d@.events),
    {
        match crate::xmlio::tokenize(bytes, false) {
            Ok(events) => Ok(Document { url, events }),
            Err(e) => Err(e),
        }
    }
}

/// The events of the first supplied document whose URL is `url`.
pub open spec fn spec_find_doc(docs: Seq<DocView>, url: Seq<char>) -> Option<
    Seq<crate::event::EventView>,
>
    decreases docs.len(),
{
    if docs.len() == 0 {
        None
    } else if docs[0].url == url {
        Some(docs[0].events)
    } else {
        spec_find_doc(docs.drop_first(), url)
    }
}

/// `spec_find_doc` finds the first match, and `None` means no match.
proof fn lemma_find_doc(docs: Seq<DocView>, url: Seq<char>)
    ensures
        match spec_find_doc(docs, url) {
            Some(ev) => exists|i: int|
                0 <= i < docs.len() && (#[trigger] docs[i]).url == url && docs[i].events == ev
                    && forall|k: int| 0 <= k < i ==> (#[trigger] docs[k]).url != url,
            None => forall|k: int| 0 <= k < docs.len() ==> (#[trigger] docs[k]).url != url,
        },
    decreases docs.len(),
{
    if docs.len() > 0 && docs[0].url != url {
        let t = docs.drop_first();
        lemma_find_doc(t, url);
        match spec_find_doc(t, url) {
            Some(ev) => {
                let j = choose|i: int|
                    0 <= i < t.len() && (#[trigger] t[i]).url == url && t[i].events == ev
                        && forall|k: int| 0 <= k < i ==> (#[trigger] t[k]).url != url;
                assert(docs[j + 1] == t[j]);
                assert forall|k: int| 0 <= k < j + 1 implies (#[trigger] docs[k]).url != url by {
                    if k > 0 {
                        assert(docs[k] == t[k - 1]);
                    }
                }
            },
            None => {
                assert forall|k: int| 0 <= k < docs.len() implies (#[trigger] docs[k]).url
                    != url by {
                    if k > 0 {
                        assert(docs[k] == t[k - 1]);
                    }
                }
            },
        }
    }
}

/// Loading a document by URL: the scheme must be `file`, `http` or
/// `https`, and the document must be among the supplied ones.
pub open spec fn spec_load_doc(url: Seq<char>, docs: Seq<DocView>) -> Result<
    Seq<crate::event::EventView>,
    crate::error::ErrorView,
> {
    match scheme_of(url) {
        None => Err(crate::error::ErrorView::UrlParseError),
        Some(s) => {
            if s == "file"@ || s == "http"@ || s == "https"@ {
                match spec_find_doc(docs, url) {
                    Some(ev) => Ok(ev),
                    None => Err(crate::error::ErrorView::MissingDocument(url)),
                }
            } else {
                Err(crate::error::ErrorView::UnsupportedScheme(s))
            }
        },
    }
}

/// Finds a supplied document by URL, after checking its scheme.
fn load_doc<'a>(url: &str, docs: &'a Vec<Document>) -> (r: Result<&'a Vec<XmlEvent>, Error>)
    ensures
        match r {
            Ok(ev) => spec_load_doc(url@, crate::types::seq_view(docs@)) == Ok::<
                _,
                crate::error::ErrorView,
            >(crate::types::seq_view(ev@)),
            Err(e) => spec_load_doc(url@, crate::types::seq_view(docs@)) == Err::<
                Seq<crate::event::EventView>,
                _,
            >(e@),
        },
{
    let ghost dv = crate::types::seq_view(docs@);
    proof {
        crate::types::lemma_seq_view_index(docs@);
        lemma_find_doc(dv, url@);
    }
    let scheme = match url_scheme(url) {
        Ok(s) => s,
        Err(e) => {
            return Err(e);
        },
    };
    if !(crate::num::str_eq(scheme.as_str(), "file") || crate::num::str_eq(scheme.as_str(), "http")
        || crate::num::str_eq(scheme.as_str(), "https")) {
        return Err(Error::UnsupportedScheme(scheme));
    }
    let n = docs.len();
    let mut i: usize = 0;
    #[verifier::loop_isolation(false)]
    while i < n
        invariant
            0 <= i <= n,
            forall|k: int| 0 <= k < i ==> (#[trigger] dv[k]).url != url@,
        decreases n - i,
    {
        proof {
            assert(dv[i as int] == docs@[i as int]@);
        }
        if crate::num::str_eq(docs[i].url.as_str(), url) {
            return Ok(&docs[i].events);
        }
        i = i + 1;
    }
    Err(Error::MissingDocument(url.to_owned()))
}

/// Pushing an optional frame.
pub open spec fn spec_push_opt(stack: Seq<PsView>, new: Option<PsView>) -> Seq<PsView> {
    match new {
        Some(s) => stack.push(s),
        None => stack,
    }
}

/// The whole parse of one document from event `i` on: every event steps
/// the machine, `import`s parse the referenced document inline, and the
/// documents end when the events do.
pub open spec fn spec_parse_events(
    p: ParserView,
    stack: Seq<PsView>,
    events: Seq<crate::event::EventView>,
    i: nat,
    docs: Seq<DocView>,
    fuel: nat,
) -> Result<ParserView, crate::error::ErrorView>
    decreases fuel, events.len() - i,
{
    if i >= events.len() {
        Ok(p)
    } else {
        match events[i as int] {
            crate::event::EventView::Start { name, attrs } => {
                let state = if stack.len() == 0 {
                    None
                } else {
                    Some(stack.last())
                };
                match spec_handle_start(p, state, name, attrs) {
                    Err(_) => Err(crate::error::ErrorView::StructuralError),
                    Ok((p2, new, imp)) => match imp {
                        None => spec_parse_events(
                            p2,
                            spec_push_opt(stack, new),
                            events,
                            i + 1,
                            docs,
                            fuel,
                        ),
                        Some(loc) => {
                            if fuel == 0 {
                                Err(crate::error::ErrorView::StructuralError)
                            } else {
                                match join_of(p2.root, loc) {
                                    None => Err(crate::error::ErrorView::UrlParseError),
                                    Some(u) => match spec_load_doc(u, docs) {
                                        Err(e) => Err(e),
                                        Ok(iev) => match spec_parse_events(
                                            p2,
                                            Seq::empty(),
                                            iev,
                                            0,
                                            docs,
                                            (fuel - 1) as nat,
                                        ) {
                                            Err(e) => Err(e),
                                            Ok(p3) => spec_parse_events(
                                                p3,
                                                spec_push_opt(stack, new),
                                                events,
                                                i + 1,
                                                docs,
                                                fuel,
                                            ),
                                        },
                                    },
                                }
                            }
                        },
                    },
                }
            },
            crate::event::EventView::End => match spec_handle_end(p, stack) {
                Ok((p2, st2)) => spec_parse_events(p2, st2, events, i + 1, docs, fuel),
                Err(_) => Err(crate::error::ErrorView::StructuralError),
            },
            crate::event::EventView::Text { text } => spec_parse_events(
                p,
                spec_handle_text(stack, text),
                events,
                i + 1,
                docs,
                fuel,
            ),
        }
    }
}

impl Parser {
    /// Parses one document's events, following imports through the
    /// supplied documents.
    fn parse_document(&mut self, events: &Vec<XmlEvent>, docs: &Vec<Document>, fuel: u32) -> (r:
        Result<(), Error>)
        ensures
            match r {
                Ok(_) => spec_parse_events(
                    old(self)@,
                    Seq::empty(),
                    crate::types::seq_view(events@),
                    0,
                    crate::types::seq_view(docs@),
                    fuel as nat,
                ) == Ok::<_, crate::error::ErrorView>(final(self)@),
                Err(e) => spec_parse_events(
                    old(self)@,
                    Seq::empty(),
                    crate::types::seq_view(events@),
                    0,
                    crate::types::seq_view(docs@),
                    fuel as nat,
                ) == Err::<ParserView, _>(e@),
            },
        decreases fuel,
    {
        let ghost ev = crate::types::seq_view(events@);
        let ghost dv = crate::types::seq_view(docs@);
        let mut stack: Vec<ParseState> = Vec::new();
        proof {
            assert(crate::types::seq_view(stack@) =~= Seq::<PsView>::empty());
        }
        let n = events.len();
        let mut i: usize = 0;
        #[verifier::loop_isolation(false)]
        while i < n
            invariant
                0 <= i <= n,
                spec_parse_events(old(self)@, Seq::empty(), ev, 0, dv, fuel as nat)
                    == spec_parse_events(
                    self@,
                    crate::types::seq_view(stack@),
                    ev,
                    i as nat,
                    dv,
                    fuel as nat,
                ),
            decreases n - i,
        {
            proof {
                crate::types::lemma_seq_view_index(events@);
                crate::types::lemma_seq_view_index(stack@);
            }
            match &events[i] {
                XmlEvent::Start { name, attrs } => {
                    let state: Option<&ParseState> = if stack.len() > 0 {
                        Some(&stack[stack.len() - 1])
                    } else {
                        None
                    };
                    proof {
                        if stack@.len() > 0 {
                            assert(view_opt_ref_ps(state) == Some(
                                crate::types::seq_view(stack@).last(),
                            ));
                        }
                    }
                    match self.handle_start(state, name.as_str(), attrs) {
                        Err(e) => {
                            return Err(e);
                        },
                        Ok((new, imp)) => match imp {
                            None => {
                                match new {
                                    Some(s) => {
                                        proof {
                                            crate::types::lemma_seq_view_push(stack@, s);
                                        }
                                        stack.push(s);
                                    },
                                    None => {},
                                }
                            },
                            Some(req) => {
                                if fuel == 0 {
                                    return Err(Error::StructuralError);
                                }
                                let resolved = match join_url(
                                    self.root.as_str(),
                                    req.location.as_str(),
                                ) {
                                    Ok(u) => u,
                                    Err(e) => {
                                        return Err(e);
                                    },
                                };
                                let ievents = match load_doc(resolved.as_str(), docs) {
                                    Ok(d) => d,
                                    Err(e) => {
                                        return Err(e);
                                    },
                                };
                                match self.parse_document(ievents, docs, fuel - 1) {
                                    Ok(_) => {},
                                    Err(e) => {
                                        return Err(e);
                                    },
                                }
                                match new {
                                    Some(s) => {
                                        proof {
                                            crate::types::lemma_seq_view_push(stack@, s);
                                        }
                                        stack.push(s);
                                    },
                                    None => {},
                                }
                            },
                        },
                    }
                },
                XmlEvent::End => {
                    match self.handle_end(&mut stack) {
                        Ok(_) => {},
                        Err(e) => {
                            return Err(e);
                        },
                    }
                },
                XmlEvent::Text { text } => {
                    self.handle_text(&mut stack, text.as_str());
                },
            }
            i = i + 1;
        }
        Ok(())
    }
}

/// A freshly created parser.
pub open spec fn spec_init_parser(url: Seq<char>) -> ParserView {
    ParserView {
        root: url,
        definition: crate::types::DefinitionView {
            types: Seq::empty(),
            messages: Seq::empty(),
            port_types: Seq::empty(),
            bindings: Seq::empty(),
            services: Seq::empty(),
        },
        namespaces: Seq::empty(),
        current: CnView { target: Seq::empty(), prefixes: Seq::empty() },
    }
}

/// What parsing a WSDL from `url` produces, given the supplied documents:
/// the definition and the namespace table, or the first error.
pub open spec fn spec_parse(url: Seq<char>, docs: Seq<DocView>) -> Result<
    (crate::types::DefinitionView, Seq<Seq<char>>),
    crate::error::ErrorView,
> {
    match spec_load_doc(url, docs) {
        Err(e) => Err(e),
        Ok(events) => match spec_parse_events(
            spec_init_parser(url),
            Seq::empty(),
            events,
            0,
            docs,
            MAX_IMPORT_DEPTH as nat,
        ) {
            Ok(p) => Ok((p.definition, p.namespaces)),
            Err(e) => Err(e),
        },
    }
}

/// Parses the WSDL document at `url`, resolving `import`/`include`
/// references through `docs`.  A referenced document that is not supplied
/// is reported as `MissingDocument`, so a caller can fetch it and retry.
pub fn parse(url: &str, docs: &Vec<Document>) -> (r: Result<(Definition, Namespaces), Error>)
    ensures
        match r {
            Ok(d) => spec_parse(url@, crate::types::seq_view(docs@)) == Ok::<
                _,
                crate::error::ErrorView,
            >((d.0@, d.1@)),
            Err(e) => spec_parse(url@, crate::types::seq_view(docs@)) == Err::<
                (crate::types::DefinitionView, Seq<Seq<char>>),
                _,
            >(e@),
        },
{
    let mut parser = Parser::new(url.to_owned());
    proof {
        assert(parser@ == spec_init_parser(url@));
    }
    let events = match load_doc(url, docs) {
        Ok(d) => d,
        Err(e) => {
            return Err(e);
        },
    };
    match parser.parse_document(events, docs, MAX_IMPORT_DEPTH) {
        Ok(_) => Ok((parser.definition, parser.namespaces)),
        Err(e) => Err(e),
    }
}

} // verus!
