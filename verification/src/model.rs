//! The registry's value types: the identity that keys an entry and the
//! descriptor stored under it, with their mathematical views.
//!
//! Every type here is plain data. Descriptors are handed to callers as
//! copies, never as references into the store, so a caller can neither
//! observe nor cause a partial update.

use crate::version::Version;
use vstd::prelude::*;

verus! {

/// An opaque label naming a type in some external type system. The
/// registry carries it as data and never interprets it.
#[derive(Debug, PartialEq, Eq)]
pub struct Type(pub String);

/// One named, typed argument of a remotely callable method.
#[derive(Debug, PartialEq, Eq)]
pub struct ServiceMethodArgument {
    pub name: String,
    pub ty: Type,
}

/// The signature of one remotely callable method: its name, its ordered
/// typed arguments, and its return type.
#[derive(Debug, PartialEq, Eq)]
pub struct ServiceMethod {
    pub name: String,
    pub args: Vec<ServiceMethodArgument>,
    pub returning: Type,
}

/// A service identity: name plus exact three-part version. The store's
/// key; equality is structural on both parts.
#[derive(Debug, PartialEq, Eq, Hash)]
pub struct ServiceName {
    pub name: String,
    pub version: Version,
}

/// The network endpoint a service instance answers at.
#[derive(Debug, PartialEq, Eq)]
pub struct Endpoint {
    pub host: String,
    pub port: u16,
}

/// The full record stored under an identity: where the service is
/// reachable and what it can do.
#[derive(Debug, PartialEq, Eq)]
pub struct Service {
    pub name: ServiceName,
    pub address: Endpoint,
    pub methods: Vec<ServiceMethod>,
}

#[verifier::ext_equal]
pub ghost struct ArgView {
    pub name: Seq<char>,
    pub ty: Seq<char>,
}

#[verifier::ext_equal]
pub ghost struct MethodView {
    pub name: Seq<char>,
    pub args: Seq<ArgView>,
    pub returning: Seq<char>,
}

#[verifier::ext_equal]
pub ghost struct ServiceNameView {
    pub name: Seq<char>,
    pub version: Version,
}

#[verifier::ext_equal]
pub ghost struct EndpointView {
    pub host: Seq<char>,
    pub port: u16,
}

#[verifier::ext_equal]
pub ghost struct ServiceView {
    pub name: ServiceNameView,
    pub address: EndpointView,
    pub methods: Seq<MethodView>,
}

impl View for Type {
    type V = Seq<char>;

    open spec fn view(&self) -> Seq<char> {
        self.0@
    }
}

impl View for ServiceMethodArgument {
    type V = ArgView;

    open spec fn view(&self) -> ArgView {
        ArgView { name: self.name@, ty: self.ty@ }
    }
}

impl View for ServiceMethod {
    type V = MethodView;

    open spec fn view(&self) -> MethodView {
        MethodView {
            name: self.name@,
            args: self.args@.map_values(|a: ServiceMethodArgument| a@),
            returning: self.returning@,
        }
    }
}

impl View for ServiceName {
    type V = ServiceNameView;

    open spec fn view(&self) -> ServiceNameView {
        ServiceNameView { name: self.name@, version: self.version }
    }
}

impl View for Endpoint {
    type V = EndpointView;

    open spec fn view(&self) -> EndpointView {
        EndpointView { host: self.host@, port: self.port }
    }
}

impl View for Service {
    type V = ServiceView;

    open spec fn view(&self) -> ServiceView {
        ServiceView {
            name: self.name@,
            address: self.address@,
            methods: self.methods@.map_values(|m: ServiceMethod| m@),
        }
    }
}

impl Clone for Type {
    fn clone(&self) -> (r: Type)
        ensures
            r@ == self@,
    {
        Type(self.0.clone())
    }
}

impl Clone for ServiceMethodArgument {
    fn clone(&self) -> (r: ServiceMethodArgument)
        ensures
            r@ == self@,
    {
        let r = ServiceMethodArgument { name: self.name.clone(), ty: self.ty.clone() };
        proof {
            assert(r@ =~= self@);
        }
        r
    }
}

fn clone_args(args: &Vec<ServiceMethodArgument>) -> (r: Vec<ServiceMethodArgument>)
    ensures
        r@.map_values(|a: ServiceMethodArgument| a@) == args@.map_values(
            |a: ServiceMethodArgument| a@,
        ),
{
    let mut r: Vec<ServiceMethodArgument> = Vec::new();
    let mut i: usize = 0;
    while i < args.len()
        invariant
            i <= args.len(),
            r@.len() == i,
            forall|j: int| 0 <= j < i ==> r@[j]@ == #[trigger] args@[j]@,
        decreases args.len() - i,
    {
        r.push(args[i].clone());
        i += 1;
    }
    proof {
        assert(r@.map_values(|a: ServiceMethodArgument| a@) =~= args@.map_values(
            |a: ServiceMethodArgument| a@,
        ));
    }
    r
}

impl Clone for ServiceMethod {
    fn clone(&self) -> (r: ServiceMethod)
        ensures
            r@ == self@,
    {
        let r = ServiceMethod {
            name: self.name.clone(),
            args: clone_args(&self.args),
            returning: self.returning.clone(),
        };
        proof {
            assert(r@ =~= self@);
        }
        r
    }
}

fn clone_methods(methods: &Vec<ServiceMethod>) -> (r: Vec<ServiceMethod>)
    ensures
        r@.map_values(|m: ServiceMethod| m@) == methods@.map_values(|m: ServiceMethod| m@),
{
    let mut r: Vec<ServiceMethod> = Vec::new();
    let mut i: usize = 0;
    while i < methods.len()
        invariant
            i <= methods.len(),
            r@.len() == i,
            forall|j: int| 0 <= j < i ==> r@[j]@ == #[trigger] methods@[j]@,
        decreases methods.len() - i,
    {
        r.push(methods[i].clone());
        i += 1;
    }
    proof {
        assert(r@.map_values(|m: ServiceMethod| m@) =~= methods@.map_values(
            |m: ServiceMethod| m@,
        ));
    }
    r
}

impl Clone for ServiceName {
    fn clone(&self) -> (r: ServiceName)
        ensures
            r@ == self@,
    {
        let r = ServiceName { name: self.name.clone(), version: self.version };
        proof {
            assert(r@ =~= self@);
        }
        r
    }
}

impl Clone for Endpoint {
    fn clone(&self) -> (r: Endpoint)
        ensures
            r@ == self@,
    {
        let r = Endpoint { host: self.host.clone(), port: self.port };
        proof {
            assert(r@ =~= self@);
        }
        r
    }
}

impl Clone for Service {
    fn clone(&self) -> (r: Service)
        ensures
            r@ == self@,
    {
        let r = Service {
            name: self.name.clone(),
            address: self.address.clone(),
            methods: clone_methods(&self.methods),
        };
        proof {
            assert(r@ =~= self@);
        }
        r
    }
}

/// Whether two identities name the same registry entry: byte-equal
/// names and component-equal versions, nothing looser.
pub fn name_eq(a: &ServiceName, b: &ServiceName) -> (r: bool)
    ensures
        r == (a@ == b@),
{
    let r = a.name == b.name && a.version.major == b.version.major && a.version.minor
        == b.version.minor && a.version.patch == b.version.patch;
    proof {
        if r {
            assert(a@ =~= b@);
        }
    }
    r
}

} // verus!
