//! The resolver: flattens service, port, binding and port type so the
//! code generator needs only the operations per port.  Messages and types
//! pass through unchanged.

use vstd::prelude::*;

use crate::error::Error;
use crate::types::{
    clone_vec_view, seq_view, BindingView, Field, FieldKind, FieldKindView, FieldView, Message,
    MessageView, NamespacedName, NameView, Operation, OperationView, PortTypeView, PortView, Type,
    TypeKind, TypeKindView, TypeView,
};

verus! {

/// A resolved port: its endpoint address and its operations, directly.
#[derive(Debug)]
pub struct Port {
    pub name: NamespacedName,
    pub location: String,
    pub operations: Vec<Operation>,
}

/// The ghost value of a resolved [`Port`].
pub struct ResolvedPortView {
    pub name: NameView,
    pub location: Seq<char>,
    pub operations: Seq<OperationView>,
}

impl View for Port {
    type V = ResolvedPortView;

    open spec fn view(&self) -> ResolvedPortView {
        ResolvedPortView {
            name: self.name@,
            location: self.location@,
            operations: seq_view(self.operations@),
        }
    }
}

/// A resolved service: its resolved ports.
#[derive(Debug)]
pub struct Service {
    pub name: NamespacedName,
    pub ports: Vec<Port>,
}

/// The ghost value of a resolved [`Service`].
pub struct ResolvedServiceView {
    pub name: NameView,
    pub ports: Seq<ResolvedPortView>,
}

impl View for Service {
    type V = ResolvedServiceView;

    open spec fn view(&self) -> ResolvedServiceView {
        ResolvedServiceView { name: self.name@, ports: seq_view(self.ports@) }
    }
}

/// A resolved definition: services with flattened ports; messages and
/// types unchanged.
#[derive(Debug)]
pub struct Definition {
    pub services: Vec<Service>,
    pub messages: Vec<Message>,
    pub types: Vec<Type>,
}

/// The ghost value of a resolved [`Definition`].
pub struct ResolvedDefinitionView {
    pub services: Seq<ResolvedServiceView>,
    pub messages: Seq<MessageView>,
    pub types: Seq<TypeView>,
}

impl View for Definition {
    type V = ResolvedDefinitionView;

    open spec fn view(&self) -> ResolvedDefinitionView {
        ResolvedDefinitionView {
            services: seq_view(self.services@),
            messages: seq_view(self.messages@),
            types: seq_view(self.types@),
        }
    }
}

/// The first binding with the given name.
pub open spec fn spec_find_binding(bindings: Seq<BindingView>, name: NameView) -> Option<
    BindingView,
>
    decreases bindings.len(),
{
    if bindings.len() == 0 {
        None
    } else if bindings[0].name == name {
        Some(bindings[0])
    } else {
        spec_find_binding(bindings.drop_first(), name)
    }
}

/// The first port type with the given name.
pub open spec fn spec_find_port_type(pts: Seq<PortTypeView>, name: NameView) -> Option<
    PortTypeView,
>
    decreases pts.len(),
{
    if pts.len() == 0 {
        None
    } else if pts[0].name == name {
        Some(pts[0])
    } else {
        spec_find_port_type(pts.drop_first(), name)
    }
}

/// Resolving one port: its binding, the binding's port type, and the port
/// type's operations.  `Err` when a reference does not resolve.
pub open spec fn spec_resolve_port(d: crate::types::DefinitionView, port: PortView) -> Result<
    ResolvedPortView,
    (),
> {
    match spec_find_binding(d.bindings, port.binding) {
        Some(b) => match spec_find_port_type(d.port_types, b.ty) {
            Some(pt) => Ok(
                ResolvedPortView {
                    name: port.name,
                    location: port.location,
                    operations: pt.operations,
                },
            ),
            None => Err(()),
        },
        None => Err(()),
    }
}

/// Resolving a service's ports in order.
pub open spec fn spec_resolve_ports(
    d: crate::types::DefinitionView,
    ports: Seq<PortView>,
) -> Result<Seq<ResolvedPortView>, ()>
    decreases ports.len(),
{
    if ports.len() == 0 {
        Ok(Seq::empty())
    } else {
        match spec_resolve_ports(d, ports.drop_last()) {
            Ok(front) => match spec_resolve_port(d, ports.last()) {
                Ok(p) => Ok(front.push(p)),
                Err(_) => Err(()),
            },
            Err(_) => Err(()),
        }
    }
}

/// Resolving the services in order.
pub open spec fn spec_resolve_services(
    d: crate::types::DefinitionView,
    services: Seq<crate::types::ServiceView>,
) -> Result<Seq<ResolvedServiceView>, ()>
    decreases services.len(),
{
    if services.len() == 0 {
        Ok(Seq::empty())
    } else {
        match spec_resolve_services(d, services.drop_last()) {
            Ok(front) => match spec_resolve_ports(d, services.last().ports) {
                Ok(ports) => Ok(
                    front.push(ResolvedServiceView { name: services.last().name, ports }),
                ),
                Err(_) => Err(()),
            },
            Err(_) => Err(()),
        }
    }
}

/// What resolving a definition produces: each service's ports flattened,
/// messages and types passed through unchanged.
pub open spec fn spec_preprocess(d: crate::types::DefinitionView) -> Result<
    ResolvedDefinitionView,
    (),
> {
    match spec_resolve_services(d, d.services) {
        Ok(services) => Ok(
            ResolvedDefinitionView { services, messages: d.messages, types: d.types },
        ),
        Err(_) => Err(()),
    }
}

/// `spec_find_binding` finds the first match, and `None` means no match.
proof fn lemma_find_binding(bindings: Seq<BindingView>, name: NameView)
    ensures
        match spec_find_binding(bindings, name) {
            Some(b) => exists|i: int|
                0 <= i < bindings.len() && (#[trigger] bindings[i]).name == name && bindings[i]
                    == b && forall|k: int| 0 <= k < i ==> (#[trigger] bindings[k]).name != name,
            None => forall|k: int| 0 <= k < bindings.len() ==> (#[trigger] bindings[k]).name
                != name,
        },
    decreases bindings.len(),
{
    if bindings.len() > 0 && bindings[0].name != name {
        let t = bindings.drop_first();
        lemma_find_binding(t, name);
        match spec_find_binding(t, name) {
            Some(b) => {
                let j = choose|i: int|
                    0 <= i < t.len() && (#[trigger] t[i]).name == name && t[i] == b && forall|
                        k: int,
                    | 0 <= k < i ==> (#[trigger] t[k]).name != name;
                assert(bindings[j + 1] == t[j]);
                assert forall|k: int| 0 <= k < j + 1 implies (#[trigger] bindings[k]).name
                    != name by {
                    if k > 0 {
                        assert(bindings[k] == t[k - 1]);
                    }
                }
            },
            None => {
                assert forall|k: int| 0 <= k < bindings.len() implies (
                #[trigger] bindings[k]).name != name by {
                    if k > 0 {
                        assert(bindings[k] == t[k - 1]);
                    }
                }
            },
        }
    }
}

/// `spec_find_port_type` finds the first match, and `None` means no
/// match.
proof fn lemma_find_port_type(pts: Seq<PortTypeView>, name: NameView)
    ensures
        match spec_find_port_type(pts, name) {
            Some(pt) => exists|i: int|
                0 <= i < pts.len() && (#[trigger] pts[i]).name == name && pts[i] == pt && forall|
                    k: int,
                | 0 <= k < i ==> (#[trigger] pts[k]).name != name,
            None => forall|k: int| 0 <= k < pts.len() ==> (#[trigger] pts[k]).name != name,
        },
    decreases pts.len(),
{
    if pts.len() > 0 && pts[0].name != name {
        let t = pts.drop_first();
        lemma_find_port_type(t, name);
        match spec_find_port_type(t, name) {
            Some(pt) => {
                let j = choose|i: int|
                    0 <= i < t.len() && (#[trigger] t[i]).name == name && t[i] == pt && forall|
                        k: int,
                    | 0 <= k < i ==> (#[trigger] t[k]).name != name;
                assert(pts[j + 1] == t[j]);
                assert forall|k: int| 0 <= k < j + 1 implies (#[trigger] pts[k]).name != name by {
                    if k > 0 {
                        assert(pts[k] == t[k - 1]);
                    }
                }
            },
            None => {
                assert forall|k: int| 0 <= k < pts.len() implies (#[trigger] pts[k]).name
                    != name by {
                    if k > 0 {
                        assert(pts[k] == t[k - 1]);
                    }
                }
            },
        }
    }
}

/// Finds the binding a port references.
fn find_binding<'a>(
    definition: &'a crate::types::Definition,
    name: &NamespacedName,
) -> (r: Option<&'a crate::types::Binding>)
    ensures
        match r {
            Some(b) => spec_find_binding(definition@.bindings, name@) == Some(b@),
            None => spec_find_binding(definition@.bindings, name@) is None,
        },
{
    proof {
        crate::types::lemma_seq_view_index(definition.bindings@);
        lemma_find_binding(definition@.bindings, name@);
    }
    let n = definition.bindings.len();
    let mut i: usize = 0;
    #[verifier::loop_isolation(false)]
    while i < n
        invariant
            0 <= i <= n,
            forall|k: int| 0 <= k < i ==> (#[trigger] definition@.bindings[k]).name != name@,
        decreases n - i,
    {
        proof {
            assert(definition@.bindings[i as int] == definition.bindings@[i as int]@);
        }
        if definition.bindings[i].name == *name {
            return Some(&definition.bindings[i]);
        }
        i = i + 1;
    }
    None
}

/// Finds the port type a binding references.
fn find_port_type<'a>(
    definition: &'a crate::types::Definition,
    name: &NamespacedName,
) -> (r: Option<&'a crate::types::PortType>)
    ensures
        match r {
            Some(pt) => spec_find_port_type(definition@.port_types, name@) == Some(pt@),
            None => spec_find_port_type(definition@.port_types, name@) is None,
        },
{
    proof {
        crate::types::lemma_seq_view_index(definition.port_types@);
        lemma_find_port_type(definition@.port_types, name@);
    }
    let n = definition.port_types.len();
    let mut i: usize = 0;
    #[verifier::loop_isolation(false)]
    while i < n
        invariant
            0 <= i <= n,
            forall|k: int| 0 <= k < i ==> (#[trigger] definition@.port_types[k]).name != name@,
        decreases n - i,
    {
        proof {
            assert(definition@.port_types[i as int] == definition.port_types@[i as int]@);
        }
        if definition.port_types[i].name == *name {
            return Some(&definition.port_types[i]);
        }
        i = i + 1;
    }
    None
}

/// Flattens service, port, binding and port type: each resolved port
/// carries its port type's operations directly.  Fails with a structural
/// error when a port references an undefined binding or a binding an
/// undefined port type.
pub fn preprocess(definition: &crate::types::Definition) -> (r: Result<Definition, Error>)
    ensures
        match r {
            Ok(d) => spec_preprocess(definition@) == Ok::<_, ()>(d@),
            Err(e) => spec_preprocess(definition@) is Err && (e matches Error::StructuralError),
        },
{
    let mut services: Vec<Service> = Vec::new();
    let ns = definition.services.len();
    let mut i: usize = 0;
    proof {
        assert(seq_view(services@) =~= Seq::<ResolvedServiceView>::empty());
        assert(definition@.services.take(0) =~= Seq::<crate::types::ServiceView>::empty());
    }
    #[verifier::loop_isolation(false)]
    while i < ns
        invariant
            0 <= i <= ns,
            spec_resolve_services(definition@, definition@.services.take(i as int)) == Ok::<_, ()>(
                seq_view(services@),
            ),
        decreases ns - i,
    {
        proof {
            crate::types::lemma_seq_view_index(definition.services@);
        }
        let service = &definition.services[i];
        let mut ports: Vec<Port> = Vec::new();
        let np = service.ports.len();
        let mut j: usize = 0;
        proof {
            assert(seq_view(ports@) =~= Seq::<ResolvedPortView>::empty());
            assert(service@.ports.take(0) =~= Seq::<PortView>::empty());
        }
        #[verifier::loop_isolation(false)]
        while j < np
            invariant
                0 <= j <= np,
                spec_resolve_ports(definition@, service@.ports.take(j as int)) == Ok::<_, ()>(
                    seq_view(ports@),
                ),
            decreases np - j,
        {
            proof {
                crate::types::lemma_seq_view_index(service.ports@);
            }
            let port = &service.ports[j];
            let binding = match find_binding(definition, &port.binding) {
                Some(b) => b,
                None => {
                    proof {
                        lemma_resolve_ports_err(definition@, service@.ports, j as int);
                        lemma_resolve_services_err(definition@, definition@.services, i as int);
                    }
                    return Err(Error::StructuralError);
                },
            };
            let port_type = match find_port_type(definition, &binding.ty) {
                Some(pt) => pt,
                None => {
                    proof {
                        lemma_resolve_ports_err(definition@, service@.ports, j as int);
                        lemma_resolve_services_err(definition@, definition@.services, i as int);
                    }
                    return Err(Error::StructuralError);
                },
            };
            let resolved = Port {
                name: port.name.clone(),
                location: port.location.clone(),
                operations: clone_vec_view(&port_type.operations),
            };
            proof {
                assert(spec_resolve_port(definition@, port@) == Ok::<_, ()>(resolved@));
                crate::types::lemma_seq_view_push(ports@, resolved);
                assert(service@.ports.take(j as int).push(service@.ports[j as int])
                    =~= service@.ports.take(j as int + 1));
                assert(service@.ports.take(j as int + 1).drop_last() =~= service@.ports.take(
                    j as int,
                ));
                assert(service@.ports.take(j as int + 1).last() == service@.ports[j as int]);
            }
            ports.push(resolved);
            j = j + 1;
        }
        proof {
            assert(service@.ports.take(np as int) =~= service@.ports);
        }
        let rs = Service { name: service.name.clone(), ports };
        proof {
            crate::types::lemma_seq_view_push(services@, rs);
            assert(definition@.services.take(i as int).push(definition@.services[i as int])
                =~= definition@.services.take(i as int + 1));
            assert(definition@.services.take(i as int + 1).drop_last() =~= definition@.services.take(
                i as int,
            ));
            assert(definition@.services.take(i as int + 1).last() == definition@.services[i as int]);
            assert(spec_resolve_ports(definition@, definition@.services[i as int].ports) == Ok::<
                _,
                (),
            >(rs@.ports));
        }
        services.push(rs);
        i = i + 1;
    }
    proof {
        assert(definition@.services.take(ns as int) =~= definition@.services);
    }
    let result = Definition {
        services,
        messages: clone_vec_view(&definition.messages),
        types: clone_vec_view(&definition.types),
    };
    proof {
        crate::types::lemma_seq_view_congruent(result.messages@, definition.messages@);
        crate::types::lemma_seq_view_congruent(result.types@, definition.types@);
    }
    Ok(result)
}

/// A failing port makes the whole port list fail.
proof fn lemma_resolve_ports_err(
    d: crate::types::DefinitionView,
    ports: Seq<PortView>,
    j: int,
)
    requires
        0 <= j < ports.len(),
        spec_resolve_port(d, ports[j]) is Err,
    ensures
        spec_resolve_ports(d, ports) is Err,
    decreases ports.len(),
{
    if ports.len() > 0 {
        if j == ports.len() - 1 {
            if spec_resolve_ports(d, ports.drop_last()) is Ok {
            }
        } else {
            lemma_resolve_ports_err(d, ports.drop_last(), j);
        }
    }
}

/// A failing service makes the whole service list fail.
proof fn lemma_resolve_services_err(
    d: crate::types::DefinitionView,
    services: Seq<crate::types::ServiceView>,
    i: int,
)
    requires
        0 <= i < services.len(),
        spec_resolve_ports(d, services[i].ports) is Err,
    ensures
        spec_resolve_services(d, services) is Err,
    decreases services.len(),
{
    if services.len() > 0 {
        if i == services.len() - 1 {
        } else {
            lemma_resolve_services_err(d, services.drop_last(), i);
        }
    }
}

// ---------------------------------------------------------------------
// Reference resolution
// ---------------------------------------------------------------------
/// How many entries of the type table carry the name `n`.
pub open spec fn spec_def_count(types: Seq<TypeView>, n: NameView) -> nat
    decreases types.len(),
{
    if types.len() == 0 {
        0
    } else if types[0].name == n {
        1 + spec_def_count(types.drop_first(), n)
    } else {
        spec_def_count(types.drop_first(), n)
    }
}

/// Whether a name resolves: it is a recognized built-in, or exactly one
/// entry of the type table defines it.
pub open spec fn spec_name_resolves(types: Seq<TypeView>, n: NameView) -> bool {
    crate::codegen::spec_builtin(n.local) is Some || spec_def_count(types, n) == 1
}

/// Whether a field's type resolves, through anonymous inline types.
pub open spec fn spec_field_kind_resolves(types: Seq<TypeView>, fk: FieldKindView) -> bool
    decreases fk,
{
    match fk {
        FieldKindView::Type(n) => spec_name_resolves(types, n),
        FieldKindView::Inner(k) => spec_kind_resolves(types, k),
    }
}

/// Whether every field type inside a kind resolves.
pub open spec fn spec_kind_resolves(types: Seq<TypeView>, k: TypeKindView) -> bool
    decreases k,
{
    match k {
        TypeKindView::Struct(fields) => spec_fields_resolve(types, fields),
        TypeKindView::Simple(n) => spec_name_resolves(types, n),
        TypeKindView::Alias(n) => spec_name_resolves(types, n),
    }
}

/// Whether every field of a list resolves.
pub open spec fn spec_fields_resolve(types: Seq<TypeView>, fields: Seq<FieldView>) -> bool
    decreases fields,
{
    if fields.len() == 0 {
        true
    } else {
        spec_field_kind_resolves(types, fields[0].ty) && spec_fields_resolve(
            types,
            fields.drop_first(),
        )
    }
}

/// Whether every field of the resolved model — in its types and in its
/// message parts — resolves to exactly one entity of its type table or a
/// recognized built-in.
pub open spec fn spec_model_resolves(d: ResolvedDefinitionView) -> bool {
    &&& (forall|i: int|
        0 <= i < d.types.len() ==> spec_kind_resolves(d.types, (#[trigger] d.types[i]).kind))
    &&& (forall|i: int|
        0 <= i < d.messages.len() ==> spec_fields_resolve(
            d.types,
            (#[trigger] d.messages[i]).parts,
        ))
}

/// Resolving a definition keeps its types and messages exactly: every
/// field of the resolved model resolves precisely when it resolved in the
/// parsed model.
pub proof fn lemma_preprocess_preserves_model(d: crate::types::DefinitionView)
    requires
        spec_preprocess(d) is Ok,
    ensures
        spec_preprocess(d)->Ok_0.types == d.types,
        spec_preprocess(d)->Ok_0.messages == d.messages,
{
}

/// Counts the entries of the type table carrying `n`.
fn def_count(types: &Vec<Type>, n: &NamespacedName) -> (r: u64)
    ensures
        r as nat == spec_def_count(seq_view(types@), n@),
{
    let ghost tv = seq_view(types@);
    proof {
        crate::types::lemma_seq_view_index(types@);
        lemma_def_count_bound(tv, n@);
    }
    let m = types.len();
    let mut count: u64 = 0;
    let mut i: usize = 0;
    #[verifier::loop_isolation(false)]
    while i < m
        invariant
            0 <= i <= m,
            count as nat == spec_def_count(tv.take(i as int), n@),
            count as nat <= i,
        decreases m - i,
    {
        proof {
            assert(tv.take(i as int).push(tv[i as int]) =~= tv.take(i as int + 1));
            lemma_def_count_snoc(tv.take(i as int), tv[i as int], n@);
            assert(tv[i as int] == types@[i as int]@);
        }
        if types[i].name == *n {
            count = count + 1;
        }
        i = i + 1;
    }
    proof {
        assert(tv.take(m as int) =~= tv);
    }
    count
}

/// The count is bounded by the table's length.
proof fn lemma_def_count_bound(types: Seq<TypeView>, n: NameView)
    ensures
        spec_def_count(types, n) <= types.len(),
    decreases types.len(),
{
    if types.len() > 0 {
        lemma_def_count_bound(types.drop_first(), n);
    }
}

/// Counting one more entry.
proof fn lemma_def_count_snoc(types: Seq<TypeView>, t: TypeView, n: NameView)
    ensures
        spec_def_count(types.push(t), n) == spec_def_count(types, n) + (if t.name == n {
            1nat
        } else {
            0nat
        }),
    decreases types.len(),
{
    let s = types.push(t);
    if types.len() == 0 {
        assert(s[0] == t);
        assert(s.drop_first() =~= Seq::<TypeView>::empty());
        assert(spec_def_count(s.drop_first(), n) == 0);
        assert(spec_def_count(types, n) == 0);
        if t.name == n {
            assert(spec_def_count(s, n) == 1 + spec_def_count(s.drop_first(), n));
        } else {
            assert(spec_def_count(s, n) == spec_def_count(s.drop_first(), n));
        }
    } else {
        assert(s[0] == types[0]);
        assert(s.drop_first() =~= types.drop_first().push(t));
        lemma_def_count_snoc(types.drop_first(), t, n);
        if s[0].name == n {
            assert(spec_def_count(s, n) == 1 + spec_def_count(s.drop_first(), n));
            assert(spec_def_count(types, n) == 1 + spec_def_count(types.drop_first(), n));
        } else {
            assert(spec_def_count(s, n) == spec_def_count(s.drop_first(), n));
            assert(spec_def_count(types, n) == spec_def_count(types.drop_first(), n));
        }
    }
}

/// Whether `n` resolves against the type table.
fn name_resolves(types: &Vec<Type>, n: &NamespacedName) -> (r: bool)
    ensures
        r == spec_name_resolves(seq_view(types@), n@),
{
    if crate::codegen::get_ty_ident(n.local_name().as_str()).is_some() {
        true
    } else {
        def_count(types, n) == 1
    }
}

/// Whether a field's type resolves, through anonymous inline types.
fn field_kind_resolves(types: &Vec<Type>, fk: &FieldKind) -> (r: bool)
    ensures
        r == spec_field_kind_resolves(seq_view(types@), fk@),
    decreases *fk,
{
    match fk {
        FieldKind::Type(n) => name_resolves(types, n),
        FieldKind::Inner(k) => kind_resolves(types, k),
    }
}

/// Whether every field type inside a kind resolves.
fn kind_resolves(types: &Vec<Type>, k: &TypeKind) -> (r: bool)
    ensures
        r == spec_kind_resolves(seq_view(types@), k@),
    decreases *k,
{
    match k {
        TypeKind::Struct(fields) => fields_resolve_from(types, fields, k),
        TypeKind::Simple(n) => name_resolves(types, n),
        TypeKind::Alias(n) => name_resolves(types, n),
    }
}

/// Whether every field of a list resolves; `whole` is the enclosing kind,
/// for termination.
fn fields_resolve_from(types: &Vec<Type>, fields: &Vec<Field>, whole: &TypeKind) -> (r: bool)
    requires
        *whole matches TypeKind::Struct(fs) && fs == *fields,
    ensures
        r == spec_fields_resolve(seq_view(types@), crate::types::view_fields(fields@)),
    decreases *whole, 0int,
{
    let ghost fv = crate::types::view_fields(fields@);
    proof {
        crate::types::lemma_view_fields(fields@);
    }
    let m = fields.len();
    let mut i: usize = 0;
    #[verifier::loop_isolation(false)]
    while i < m
        invariant
            0 <= i <= m,
            forall|k: int| 0 <= k < i ==> spec_field_kind_resolves(
                seq_view(types@),
                (#[trigger] fv[k]).ty,
            ),
        decreases m - i,
    {
        proof {
            assert(decreases_to!(*whole => fields@[i as int].ty));
            assert(fv[i as int] == crate::types::view_field(fields@[i as int]));
        }
        if !field_kind_resolves(types, &fields[i].ty) {
            proof {
                lemma_fields_resolve_index(seq_view(types@), fv, i as int);
            }
            return false;
        }
        i = i + 1;
    }
    proof {
        lemma_fields_resolve_all(seq_view(types@), fv);
    }
    true
}

/// A non-resolving field at any index refutes the whole list.
proof fn lemma_fields_resolve_index(types: Seq<TypeView>, fields: Seq<FieldView>, j: int)
    requires
        0 <= j < fields.len(),
        !spec_field_kind_resolves(types, fields[j].ty),
    ensures
        !spec_fields_resolve(types, fields),
    decreases fields.len(),
{
    if fields.len() > 0 && j > 0 {
        assert(fields.drop_first()[j - 1] == fields[j]);
        lemma_fields_resolve_index(types, fields.drop_first(), j - 1);
    }
}

/// Element-wise resolution gives the whole list.
proof fn lemma_fields_resolve_all(types: Seq<TypeView>, fields: Seq<FieldView>)
    requires
        forall|k: int| 0 <= k < fields.len() ==> spec_field_kind_resolves(
            types,
            (#[trigger] fields[k]).ty,
        ),
    ensures
        spec_fields_resolve(types, fields),
    decreases fields.len(),
{
    if fields.len() > 0 {
        assert(forall|k: int| 0 <= k < fields.drop_first().len()
            ==> #[trigger] fields.drop_first()[k] == fields[k + 1]);
        lemma_fields_resolve_all(types, fields.drop_first());
    }
}

/// Checks that every field of the resolved model resolves to exactly one
/// entity of its type table or a recognized built-in.
pub fn validate_references(d: &Definition) -> (r: bool)
    ensures
        r == spec_model_resolves(d@),
{
    proof {
        crate::types::lemma_seq_view_index(d.types@);
        crate::types::lemma_seq_view_index(d.messages@);
    }
    let nt = d.types.len();
    let mut i: usize = 0;
    #[verifier::loop_isolation(false)]
    while i < nt
        invariant
            0 <= i <= nt,
            forall|k: int| 0 <= k < i ==> spec_kind_resolves(
                d@.types,
                (#[trigger] d@.types[k]).kind,
            ),
        decreases nt - i,
    {
        proof {
            assert(d@.types[i as int] == d.types@[i as int]@);
        }
        if !kind_resolves(&d.types, &d.types[i].kind) {
            return false;
        }
        i = i + 1;
    }
    let nm = d.messages.len();
    let mut j: usize = 0;
    #[verifier::loop_isolation(false)]
    while j < nm
        invariant
            0 <= j <= nm,
            forall|k: int| 0 <= k < j ==> spec_fields_resolve(
                d@.types,
                (#[trigger] d@.messages[k]).parts,
            ),
        decreases nm - j,
    {
        proof {
            assert(d@.messages[j as int] == d.messages@[j as int]@);
            crate::types::lemma_view_fields(d.messages@[j as int].parts@);
        }
        let parts = &d.messages[j].parts;
        let np = parts.len();
        let mut p: usize = 0;
        #[verifier::loop_isolation(false)]
        while p < np
            invariant
                0 <= p <= np,
                forall|k: int| 0 <= k < p ==> spec_field_kind_resolves(
                    d@.types,
                    (#[trigger] crate::types::view_fields(parts@)[k]).ty,
                ),
            decreases np - p,
        {
            proof {
                assert(crate::types::view_fields(parts@)[p as int] == crate::types::view_field(
                    parts@[p as int],
                ));
            }
            if !field_kind_resolves(&d.types, &parts[p].ty) {
                proof {
                    lemma_fields_resolve_index(
                        d@.types,
                        crate::types::view_fields(parts@),
                        p as int,
                    );
                }
                return false;
            }
            p = p + 1;
        }
        proof {
            lemma_fields_resolve_all(d@.types, crate::types::view_fields(parts@));
        }
        j = j + 1;
    }
    true
}

} // verus!
