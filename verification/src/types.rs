//! The intermediate model: namespace-interned names, types, messages,
//! port types, bindings and services, exactly as the parser produces them
//! and the resolver and the code generator consume them.

use vstd::prelude::*;

verus! {

// ---------------------------------------------------------------------
// Namespace table
// ---------------------------------------------------------------------
/// Append-only table of namespace URIs; a URI's index is its identity.
#[derive(Debug)]
pub struct Namespaces(Vec<String>);

impl View for Namespaces {
    type V = Seq<Seq<char>>;

    closed spec fn view(&self) -> Seq<Seq<char>> {
        self.0.deep_view()
    }
}

/// The position of the first entry equal to `ns`, if any.
pub open spec fn spec_index_of(s: Seq<Seq<char>>, ns: Seq<char>) -> Option<int>
    decreases s.len(),
{
    if s.len() == 0 {
        None
    } else if s[0] == ns {
        Some(0)
    } else {
        match spec_index_of(s.drop_first(), ns) {
            Some(i) => Some(i + 1),
            None => None,
        }
    }
}

/// What interning `ns` does to the table: the table unchanged and the
/// existing index, or the table grown by one and the new index.
pub open spec fn spec_add_or_get(s: Seq<Seq<char>>, ns: Seq<char>) -> (Seq<Seq<char>>, int) {
    match spec_index_of(s, ns) {
        Some(i) => (s, i),
        None => (s.push(ns), s.len() as int),
    }
}

/// `spec_index_of` finds the first match, and `None` means no match.
pub proof fn lemma_index_of_props(s: Seq<Seq<char>>, ns: Seq<char>)
    ensures
        match spec_index_of(s, ns) {
            Some(i) => 0 <= i < s.len() && s[i] == ns && forall|k: int|
                0 <= k < i ==> s[k] != ns,
            None => forall|k: int| 0 <= k < s.len() ==> s[k] != ns,
        },
    decreases s.len(),
{
    if s.len() > 0 && s[0] != ns {
        let t = s.drop_first();
        lemma_index_of_props(t, ns);
        match spec_index_of(t, ns) {
            Some(i) => {
                assert(s[i + 1] == t[i]);
                assert forall|k: int| 0 <= k < i + 1 implies s[k] != ns by {
                    if k > 0 {
                        assert(s[k] == t[k - 1]);
                    }
                }
            },
            None => {
                assert forall|k: int| 0 <= k < s.len() implies s[k] != ns by {
                    if k > 0 {
                        assert(s[k] == t[k - 1]);
                    }
                }
            },
        }
    }
}

/// An index, once issued for a URI, survives any later growth of the
/// table: references by index never dangle and never change meaning.
pub proof fn lemma_index_of_stable(s: Seq<Seq<char>>, t: Seq<Seq<char>>, ns: Seq<char>)
    requires
        spec_index_of(s, ns) is Some,
    ensures
        spec_index_of(s + t, ns) == spec_index_of(s, ns),
    decreases s.len(),
{
    if s.len() > 0 {
        if s[0] == ns {
            assert((s + t)[0] == ns);
        } else {
            assert((s + t)[0] == s[0]);
            lemma_index_of_stable(s.drop_first(), t, ns);
            assert((s + t).drop_first() =~= s.drop_first() + t);
        }
    }
}

/// Interning is round-trip stable: after `add_or_get(ns)` returns `i`,
/// looking `ns` up in the resulting table finds exactly `i`.
pub proof fn lemma_add_or_get_round_trip(s: Seq<Seq<char>>, ns: Seq<char>)
    ensures
        ({
            let (s2, i) = spec_add_or_get(s, ns);
            spec_index_of(s2, ns) == Some(i)
        }),
    decreases s.len(),
{
    match spec_index_of(s, ns) {
        Some(_) => {},
        None => {
            lemma_index_of_props(s, ns);
            lemma_index_of_push_absent(s, ns);
        },
    }
}

/// Pushing an absent URI makes it findable at the former length.
proof fn lemma_index_of_push_absent(s: Seq<Seq<char>>, ns: Seq<char>)
    requires
        spec_index_of(s, ns) is None,
    ensures
        spec_index_of(s.push(ns), ns) == Some(s.len() as int),
    decreases s.len(),
{
    if s.len() == 0 {
        assert(s.push(ns)[0] == ns);
    } else {
        lemma_index_of_push_absent(s.drop_first(), ns);
        assert(s.push(ns).drop_first() =~= s.drop_first().push(ns));
    }
}

impl Namespaces {
    /// An empty table.
    pub fn new() -> (r: Self)
        ensures
            r@ =~= Seq::<Seq<char>>::empty(),
    {
        Namespaces(Vec::new())
    }

    /// The interned URIs, in insertion order.
    pub fn namespaces(&self) -> (r: &Vec<String>)
        ensures
            r.deep_view() == self@,
    {
        &self.0
    }

    /// Interns `namespace`, returning its stable index.
    pub fn add_or_get(&mut self, namespace: &str) -> (index: usize)
        ensures
            (final(self)@, index as int) == spec_add_or_get(old(self)@, namespace@),
            spec_index_of(final(self)@, namespace@) == Some(index as int),
    {
        proof {
            lemma_add_or_get_round_trip(self@, namespace@);
        }
        if let Some(index) = self.index_of(namespace) {
            index
        } else {
            let index = self.0.len();
            self.0.push(namespace.to_owned());
            assert(self@ =~= old(self)@.push(namespace@));
            index
        }
    }

    /// The index of `namespace`, if it has been interned.
    #[verifier::loop_isolation(false)]
    pub fn index_of(&self, namespace: &str) -> (r: Option<usize>)
        ensures
            match r {
                Some(i) => spec_index_of(self@, namespace@) == Some(i as int),
                None => spec_index_of(self@, namespace@) is None,
            },
    {
        proof {
            lemma_index_of_props(self@, namespace@);
        }
        let n = self.0.len();
        let mut i: usize = 0;
        while i < n
            invariant
                0 <= i <= n,
                forall|k: int| 0 <= k < i ==> self@[k] != namespace@,
            decreases n - i,
        {
            assert(self@[i as int] == self.0.deep_view()[i as int]);
            if crate::num::str_eq(self.0[i].as_str(), namespace) {
                return Some(i);
            }
            i = i + 1;
        }
        None
    }
}

impl Default for Namespaces {
    /// An empty table.
    fn default() -> (r: Self)
        ensures
            r@ =~= Seq::<Seq<char>>::empty(),
    {
        Namespaces::new()
    }
}

impl Clone for Namespaces {
    #[verifier::loop_isolation(false)]
    fn clone(&self) -> (r: Self)
        ensures
            r@ == self@,
    {
        let mut out: Vec<String> = Vec::new();
        let n = self.0.len();
        let mut i: usize = 0;
        while i < n
            invariant
                0 <= i <= n,
                out@.len() == i,
                forall|k: int| 0 <= k < i ==> out.deep_view()[k] == self@[k],
            decreases n - i,
        {
            let s = self.0[i].clone();
            assert(s@ == self.0.deep_view()[i as int]);
            out.push(s);
            i = i + 1;
        }
        assert(out.deep_view() =~= self@);
        Namespaces(out)
    }
}

// ---------------------------------------------------------------------
// Namespaced names
// ---------------------------------------------------------------------
/// The ghost value of a [`NamespacedName`].
pub struct NameView {
    pub ns: int,
    pub local: Seq<char>,
}

/// A name qualified by an interned namespace index; the unique identity
/// of every model entity.  Two names are equal exactly when both the
/// index and the local name are equal.
#[derive(Debug)]
pub struct NamespacedName {
    namespace_idx: usize,
    pub name: String,
}

impl View for NamespacedName {
    type V = NameView;

    closed spec fn view(&self) -> NameView {
        NameView { ns: self.namespace_idx as int, local: self.name@ }
    }
}

impl NamespacedName {
    /// Interns `namespace` and pairs the resulting index with `name`.
    pub fn new(namespaces: &mut Namespaces, namespace: &str, name: String) -> (r: Self)
        ensures
            final(namespaces)@ == spec_add_or_get(old(namespaces)@, namespace@).0,
            r@.ns == spec_add_or_get(old(namespaces)@, namespace@).1,
            r@.local == name@,
            spec_index_of(final(namespaces)@, namespace@) == Some(r@.ns),
    {
        let namespace_idx = namespaces.add_or_get(namespace);
        NamespacedName { namespace_idx, name }
    }

    /// Builds a name from an index already issued by the table.
    pub fn from_index(namespace_idx: usize, name: String) -> (r: Self)
        ensures
            r@.ns == namespace_idx as int,
            r@.local == name@,
    {
        NamespacedName { namespace_idx, name }
    }

    /// The local name.
    pub fn local_name(&self) -> (r: &String)
        ensures
            r@ == self@.local,
    {
        &self.name
    }

    /// The namespace index.
    pub fn index(&self) -> (r: usize)
        ensures
            r as int == self@.ns,
    {
        self.namespace_idx
    }
}

impl Clone for NamespacedName {
    fn clone(&self) -> (r: Self)
        ensures
            r == *self,
    {
        NamespacedName { namespace_idx: self.namespace_idx, name: self.name.clone() }
    }
}

impl PartialEq for NamespacedName {
    fn eq(&self, other: &Self) -> (r: bool) {
        self.namespace_idx == other.namespace_idx && self.name == other.name
    }
}

impl vstd::std_specs::cmp::PartialEqSpecImpl for NamespacedName {
    open spec fn obeys_eq_spec() -> bool {
        true
    }

    open spec fn eq_spec(&self, other: &Self) -> bool {
        self@ == other@
    }
}

impl Eq for NamespacedName {

}

// ---------------------------------------------------------------------
// The typed AST
// ---------------------------------------------------------------------
/// What a named type is: a record, a restriction of a primitive, or an
/// alias of another named type.
#[derive(Debug)]
pub enum TypeKind {
    /// Complex types and messages: an ordered sequence of fields.
    Struct(Vec<Field>),
    /// A simple type defined by restriction of a primitive.
    Simple(NamespacedName),
    /// A top-level `element` with a `type` attribute pointing at another
    /// named type.
    Alias(NamespacedName),
}

/// What a field's type is: a reference to a named type, or an anonymous
/// inline type.
#[derive(Debug)]
pub enum FieldKind {
    /// A reference to a named type, built-in or user-defined.
    Type(NamespacedName),
    /// An anonymous inline type.
    Inner(TypeKind),
}

/// A named member of a record or a named part of a message.
#[derive(Debug)]
pub struct Field {
    pub name: NamespacedName,
    pub ty: FieldKind,
}

/// The ghost value of a [`TypeKind`].
pub enum TypeKindView {
    Struct(Seq<FieldView>),
    Simple(NameView),
    Alias(NameView),
}

/// The ghost value of a [`FieldKind`].
pub enum FieldKindView {
    Type(NameView),
    Inner(TypeKindView),
}

/// The ghost value of a [`Field`].
pub struct FieldView {
    pub name: NameView,
    pub ty: FieldKindView,
}

/// The ghost value of a [`TypeKind`].
pub open spec fn view_type_kind(k: TypeKind) -> TypeKindView
    decreases k,
{
    match k {
        TypeKind::Struct(fields) => TypeKindView::Struct(view_fields(fields@)),
        TypeKind::Simple(n) => TypeKindView::Simple(n@),
        TypeKind::Alias(n) => TypeKindView::Alias(n@),
    }
}

/// The ghost values of a sequence of fields, in order.
pub open spec fn view_fields(s: Seq<Field>) -> Seq<FieldView>
    decreases s,
{
    if s.len() == 0 {
        Seq::empty()
    } else {
        seq![view_field(s[0])] + view_fields(s.drop_first())
    }
}

/// The ghost value of a [`Field`].
pub open spec fn view_field(f: Field) -> FieldView
    decreases f,
{
    FieldView { name: f.name@, ty: view_field_kind(f.ty) }
}

/// The ghost value of a [`FieldKind`].
pub open spec fn view_field_kind(fk: FieldKind) -> FieldKindView
    decreases fk,
{
    match fk {
        FieldKind::Type(n) => FieldKindView::Type(n@),
        FieldKind::Inner(k) => FieldKindView::Inner(view_type_kind(k)),
    }
}

/// `view_fields` maps `view_field` over the sequence.
pub proof fn lemma_view_fields(s: Seq<Field>)
    ensures
        view_fields(s).len() == s.len(),
        forall|i: int| 0 <= i < s.len() ==> view_fields(s)[i] == view_field(#[trigger] s[i]),
    decreases s.len(),
{
    if s.len() > 0 {
        lemma_view_fields(s.drop_first());
        assert forall|i: int| 0 <= i < s.len() implies view_fields(s)[i] == view_field(
            #[trigger] s[i],
        ) by {
            if i > 0 {
                assert(view_fields(s)[i] == view_fields(s.drop_first())[i - 1]);
                assert(s.drop_first()[i - 1] == s[i]);
            }
        }
    }
}

impl View for TypeKind {
    type V = TypeKindView;

    open spec fn view(&self) -> TypeKindView {
        view_type_kind(*self)
    }
}

impl View for FieldKind {
    type V = FieldKindView;

    open spec fn view(&self) -> FieldKindView {
        view_field_kind(*self)
    }
}

impl View for Field {
    type V = FieldView;

    open spec fn view(&self) -> FieldView {
        view_field(*self)
    }
}

/// The ghost values of the elements of a sequence, in order.
pub open spec fn seq_view<T: View>(s: Seq<T>) -> Seq<T::V> {
    s.map_values(|t: T| t@)
}

impl Clone for TypeKind {
    fn clone(&self) -> (r: Self)
        ensures
            r@ == self@,
        decreases *self,
    {
        match self {
            TypeKind::Struct(fields) => {
                let mut c: Vec<Field> = Vec::new();
                let n = fields.len();
                let mut i: usize = 0;
                #[verifier::loop_isolation(false)]
                while i < n
                    invariant
                        0 <= i <= n,
                        c@.len() == i,
                        forall|k: int| 0 <= k < i ==> #[trigger] c@[k]@ == fields@[k]@,
                    decreases n - i,
                {
                    proof {
                        assert(decreases_to!(*self => fields@[i as int]));
                    }
                    c.push(fields[i].clone());
                    i = i + 1;
                }
                proof {
                    lemma_view_fields(c@);
                    lemma_view_fields(fields@);
                    assert forall|k: int| 0 <= k < c@.len() implies view_fields(c@)[k]
                        == view_fields(fields@)[k] by {
                        assert(c@[k]@ == fields@[k]@);
                    }
                    assert(view_fields(c@) =~= view_fields(fields@));
                }
                TypeKind::Struct(c)
            },
            TypeKind::Simple(n) => TypeKind::Simple(n.clone()),
            TypeKind::Alias(n) => TypeKind::Alias(n.clone()),
        }
    }
}

impl Clone for FieldKind {
    fn clone(&self) -> (r: Self)
        ensures
            r@ == self@,
        decreases *self,
    {
        match self {
            FieldKind::Type(n) => FieldKind::Type(n.clone()),
            FieldKind::Inner(k) => FieldKind::Inner(k.clone()),
        }
    }
}

impl Clone for Field {
    fn clone(&self) -> (r: Self)
        ensures
            r@ == self@,
        decreases *self,
    {
        Field { name: self.name.clone(), ty: self.ty.clone() }
    }
}

// ---------------------------------------------------------------------
// Named entities of a definition
// ---------------------------------------------------------------------
/// A named type of the model.
#[derive(Debug)]
pub struct Type {
    pub name: NamespacedName,
    pub kind: TypeKind,
}

/// The ghost value of a [`Type`].
pub struct TypeView {
    pub name: NameView,
    pub kind: TypeKindView,
}

impl View for Type {
    type V = TypeView;

    open spec fn view(&self) -> TypeView {
        TypeView { name: self.name@, kind: self.kind@ }
    }
}

impl Clone for Type {
    fn clone(&self) -> (r: Self)
        ensures
            r@ == self@,
    {
        Type { name: self.name.clone(), kind: self.kind.clone() }
    }
}

/// A message: named parts, one field per part, in document order.
#[derive(Debug)]
pub struct Message {
    pub name: NamespacedName,
    pub parts: Vec<Field>,
}

/// The ghost value of a [`Message`].
pub struct MessageView {
    pub name: NameView,
    pub parts: Seq<FieldView>,
}

impl View for Message {
    type V = MessageView;

    open spec fn view(&self) -> MessageView {
        MessageView { name: self.name@, parts: view_fields(self.parts@) }
    }
}

impl Clone for Message {
    fn clone(&self) -> (r: Self)
        ensures
            r@ == self@,
    {
        let parts = self.parts.clone();
        proof {
            assert forall|i: int| 0 <= i < self.parts@.len() implies parts@[i]@
                == self.parts@[i]@ by {
                assert(cloned::<Field>(self.parts[i], parts[i]));
            }
            lemma_view_fields(parts@);
            lemma_view_fields(self.parts@);
            assert forall|k: int| 0 <= k < parts@.len() implies view_fields(parts@)[k]
                == view_fields(self.parts@)[k] by {
                assert(parts@[k]@ == self.parts@[k]@);
            }
            assert(view_fields(parts@) =~= view_fields(self.parts@));
        }
        Message { name: self.name.clone(), parts }
    }
}

/// A named request/response exchange of a port type.
#[derive(Debug)]
pub struct Operation {
    pub name: NamespacedName,
    pub documentation: Option<String>,
    pub input: Option<NamespacedName>,
    pub output: Option<NamespacedName>,
}

/// The ghost value of an [`Operation`].
pub struct OperationView {
    pub name: NameView,
    pub documentation: Option<Seq<char>>,
    pub input: Option<NameView>,
    pub output: Option<NameView>,
}

impl View for Operation {
    type V = OperationView;

    open spec fn view(&self) -> OperationView {
        OperationView {
            name: self.name@,
            documentation: match self.documentation {
                Some(ref d) => Some(d@),
                None => None,
            },
            input: match self.input {
                Some(ref n) => Some(n@),
                None => None,
            },
            output: match self.output {
                Some(ref n) => Some(n@),
                None => None,
            },
        }
    }
}

impl Clone for Operation {
    fn clone(&self) -> (r: Self)
        ensures
            r@ == self@,
    {
        Operation {
            name: self.name.clone(),
            documentation: match &self.documentation {
                Some(d) => Some(d.clone()),
                None => None,
            },
            input: match &self.input {
                Some(n) => Some(n.clone()),
                None => None,
            },
            output: match &self.output {
                Some(n) => Some(n.clone()),
                None => None,
            },
        }
    }
}

/// An abstract set of operations.
#[derive(Debug)]
pub struct PortType {
    pub name: NamespacedName,
    pub operations: Vec<Operation>,
}

/// The ghost value of a [`PortType`].
pub struct PortTypeView {
    pub name: NameView,
    pub operations: Seq<OperationView>,
}

impl View for PortType {
    type V = PortTypeView;

    open spec fn view(&self) -> PortTypeView {
        PortTypeView { name: self.name@, operations: seq_view(self.operations@) }
    }
}

impl Clone for PortType {
    fn clone(&self) -> (r: Self)
        ensures
            r@ == self@,
    {
        let operations = clone_vec_view(&self.operations);
        PortType { name: self.name.clone(), operations }
    }
}

/// Per-operation action and style metadata of a binding.
#[derive(Debug)]
pub struct BindingOperation {
    pub name: NamespacedName,
    pub action: String,
    pub style: String,
    pub input: Option<String>,
    pub output: Option<String>,
}

/// The ghost value of a [`BindingOperation`].
pub struct BindingOperationView {
    pub name: NameView,
    pub action: Seq<char>,
    pub style: Seq<char>,
    pub input: Option<Seq<char>>,
    pub output: Option<Seq<char>>,
}

impl View for BindingOperation {
    type V = BindingOperationView;

    open spec fn view(&self) -> BindingOperationView {
        BindingOperationView {
            name: self.name@,
            action: self.action@,
            style: self.style@,
            input: match self.input {
                Some(ref s) => Some(s@),
                None => None,
            },
            output: match self.output {
                Some(ref s) => Some(s@),
                None => None,
            },
        }
    }
}

impl Clone for BindingOperation {
    fn clone(&self) -> (r: Self)
        ensures
            r@ == self@,
    {
        BindingOperation {
            name: self.name.clone(),
            action: self.action.clone(),
            style: self.style.clone(),
            input: match &self.input {
                Some(s) => Some(s.clone()),
                None => None,
            },
            output: match &self.output {
                Some(s) => Some(s.clone()),
                None => None,
            },
        }
    }
}

/// The wire-format concretization of a port type.
#[derive(Debug)]
pub struct Binding {
    pub name: NamespacedName,
    pub ty: NamespacedName,
    pub transport: String,
    pub operations: Vec<BindingOperation>,
}

/// The ghost value of a [`Binding`].
pub struct BindingView {
    pub name: NameView,
    pub ty: NameView,
    pub transport: Seq<char>,
    pub operations: Seq<BindingOperationView>,
}

impl View for Binding {
    type V = BindingView;

    open spec fn view(&self) -> BindingView {
        BindingView {
            name: self.name@,
            ty: self.ty@,
            transport: self.transport@,
            operations: seq_view(self.operations@),
        }
    }
}

impl Clone for Binding {
    fn clone(&self) -> (r: Self)
        ensures
            r@ == self@,
    {
        Binding {
            name: self.name.clone(),
            ty: self.ty.clone(),
            transport: self.transport.clone(),
            operations: clone_vec_view(&self.operations),
        }
    }
}

/// A concrete endpoint: a binding together with its address.
#[derive(Debug)]
pub struct Port {
    pub name: NamespacedName,
    pub binding: NamespacedName,
    pub location: String,
}

/// The ghost value of a [`Port`].
pub struct PortView {
    pub name: NameView,
    pub binding: NameView,
    pub location: Seq<char>,
}

impl View for Port {
    type V = PortView;

    open spec fn view(&self) -> PortView {
        PortView { name: self.name@, binding: self.binding@, location: self.location@ }
    }
}

impl Clone for Port {
    fn clone(&self) -> (r: Self)
        ensures
            r@ == self@,
    {
        Port {
            name: self.name.clone(),
            binding: self.binding.clone(),
            location: self.location.clone(),
        }
    }
}

/// A named collection of ports.
#[derive(Debug)]
pub struct Service {
    pub name: NamespacedName,
    pub ports: Vec<Port>,
}

/// The ghost value of a [`Service`].
pub struct ServiceView {
    pub name: NameView,
    pub ports: Seq<PortView>,
}

impl View for Service {
    type V = ServiceView;

    open spec fn view(&self) -> ServiceView {
        ServiceView { name: self.name@, ports: seq_view(self.ports@) }
    }
}

impl Clone for Service {
    fn clone(&self) -> (r: Self)
        ensures
            r@ == self@,
    {
        Service { name: self.name.clone(), ports: clone_vec_view(&self.ports) }
    }
}

/// Everything a set of WSDL documents defines, in insertion order.
#[derive(Debug)]
pub struct Definition {
    pub types: Vec<Type>,
    pub messages: Vec<Message>,
    pub port_types: Vec<PortType>,
    pub bindings: Vec<Binding>,
    pub services: Vec<Service>,
}

/// The ghost value of a [`Definition`].
pub struct DefinitionView {
    pub types: Seq<TypeView>,
    pub messages: Seq<MessageView>,
    pub port_types: Seq<PortTypeView>,
    pub bindings: Seq<BindingView>,
    pub services: Seq<ServiceView>,
}

impl View for Definition {
    type V = DefinitionView;

    open spec fn view(&self) -> DefinitionView {
        DefinitionView {
            types: seq_view(self.types@),
            messages: seq_view(self.messages@),
            port_types: seq_view(self.port_types@),
            bindings: seq_view(self.bindings@),
            services: seq_view(self.services@),
        }
    }
}

impl Definition {
    /// An empty definition.
    pub fn new() -> (r: Self)
        ensures
            r@.types =~= Seq::<TypeView>::empty(),
            r@.messages =~= Seq::<MessageView>::empty(),
            r@.port_types =~= Seq::<PortTypeView>::empty(),
            r@.bindings =~= Seq::<BindingView>::empty(),
            r@.services =~= Seq::<ServiceView>::empty(),
    {
        Definition {
            types: Vec::new(),
            messages: Vec::new(),
            port_types: Vec::new(),
            bindings: Vec::new(),
            services: Vec::new(),
        }
    }
}

impl Default for Definition {
    fn default() -> (r: Self)
        ensures
            r@.types =~= Seq::<TypeView>::empty(),
            r@.messages =~= Seq::<MessageView>::empty(),
            r@.port_types =~= Seq::<PortTypeView>::empty(),
            r@.bindings =~= Seq::<BindingView>::empty(),
            r@.services =~= Seq::<ServiceView>::empty(),
    {
        Definition::new()
    }
}

impl Clone for Definition {
    fn clone(&self) -> (r: Self)
        ensures
            r@.types == self@.types,
            r@.messages == self@.messages,
            r@.port_types == self@.port_types,
            r@.bindings == self@.bindings,
            r@.services == self@.services,
    {
        let mut messages: Vec<Message> = Vec::new();
        let mut i: usize = 0;
        #[verifier::loop_isolation(false)]
        while i < self.messages.len()
            invariant
                0 <= i <= self.messages.len(),
                messages@.len() == i,
                forall|k: int| 0 <= k < i ==> messages@[k]@ == self.messages@[k]@,
            decreases self.messages.len() - i,
        {
            messages.push(self.messages[i].clone());
            i = i + 1;
        }
        proof {
            lemma_seq_view_congruent(messages@, self.messages@);
        }
        Definition {
            types: clone_vec_view(&self.types),
            messages,
            port_types: clone_vec_view(&self.port_types),
            bindings: clone_vec_view(&self.bindings),
            services: clone_vec_view(&self.services),
        }
    }
}

/// The ghost values of a sequence, element by element.
pub proof fn lemma_seq_view_index<T: View>(s: Seq<T>)
    ensures
        seq_view(s).len() == s.len(),
        forall|i: int| 0 <= i < s.len() ==> seq_view(s)[i] == (#[trigger] s[i])@,
{
}

/// Pushing commutes with taking ghost values.
pub proof fn lemma_seq_view_push<T: View>(s: Seq<T>, x: T)
    ensures
        seq_view(s.push(x)) == seq_view(s).push(x@),
{
    assert(seq_view(s.push(x)) =~= seq_view(s).push(x@));
}

/// Dropping the last element commutes with taking ghost values.
pub proof fn lemma_seq_view_drop_last<T: View>(s: Seq<T>)
    requires
        s.len() > 0,
    ensures
        seq_view(s.drop_last()) == seq_view(s).drop_last(),
        seq_view(s).last() == s.last()@,
{
    assert(seq_view(s.drop_last()) =~= seq_view(s).drop_last());
}

/// Pushing a field commutes with taking ghost values.
pub proof fn lemma_view_fields_push(s: Seq<Field>, f: Field)
    ensures
        view_fields(s.push(f)) == view_fields(s).push(f@),
{
    lemma_view_fields(s);
    lemma_view_fields(s.push(f));
    assert forall|i: int| 0 <= i < s.len() + 1 implies view_fields(s.push(f))[i] == view_fields(
        s,
    ).push(f@)[i] by {
        if i < s.len() {
            assert(s.push(f)[i] == s[i]);
        } else {
            assert(s.push(f)[i] == f);
        }
    }
    assert(view_fields(s.push(f)) =~= view_fields(s).push(f@));
}

/// Concatenation commutes with taking ghost values of fields.
pub proof fn lemma_view_fields_concat(a: Seq<Field>, b: Seq<Field>)
    ensures
        view_fields(a + b) == view_fields(a) + view_fields(b),
{
    lemma_view_fields(a);
    lemma_view_fields(b);
    lemma_view_fields(a + b);
    assert forall|i: int| 0 <= i < a.len() + b.len() implies view_fields(a + b)[i] == (view_fields(
        a,
    ) + view_fields(b))[i] by {
        if i < a.len() {
            assert((a + b)[i] == a[i]);
        } else {
            assert((a + b)[i] == b[i - a.len()]);
        }
    }
    assert(view_fields(a + b) =~= view_fields(a) + view_fields(b));
}

/// Sequences whose elements agree ghost-value by ghost-value have the
/// same ghost values.
pub proof fn lemma_seq_view_congruent<T: View>(a: Seq<T>, b: Seq<T>)
    requires
        a.len() == b.len(),
        forall|i: int| 0 <= i < a.len() ==> #[trigger] a[i]@ == b[i]@,
    ensures
        seq_view(a) == seq_view(b),
{
    assert(seq_view(a) =~= seq_view(b));
}

/// Clones a vector element by element, keeping every ghost value.
pub fn clone_vec_view<T: View + Clone>(v: &Vec<T>) -> (r: Vec<T>)
    requires
        forall|x: T, y: T| cloned::<T>(x, y) ==> y@ == x@,
    ensures
        r@.len() == v@.len(),
        seq_view(r@) == seq_view(v@),
        forall|i: int| 0 <= i < v@.len() ==> #[trigger] r@[i]@ == v@[i]@,
{
    let mut out: Vec<T> = Vec::new();
    let n = v.len();
    let mut i: usize = 0;
    #[verifier::loop_isolation(false)]
    while i < n
        invariant
            0 <= i <= n,
            out@.len() == i,
            forall|k: int| 0 <= k < i ==> #[trigger] out@[k]@ == v@[k]@,
        decreases n - i,
    {
        let c = v[i].clone();
        proof {
            assert(cloned::<T>(v@[i as int], c));
        }
        out.push(c);
        i = i + 1;
    }
    proof {
        lemma_seq_view_congruent(out@, v@);
    }
    out
}

} // verus!
