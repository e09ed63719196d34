use vstd::prelude::*;
use crate::table::Table;

verus! {

/// An HTTP request method.
#[derive(Clone, Copy, Debug, PartialEq, Eq, Structural)]
pub enum HttpMethod {
    Get,
    Post,
    Put,
    Patch,
    Delete,
}

/// The scheme that a service is reached by.
#[derive(Clone, Copy, Debug, PartialEq, Eq, Structural)]
pub enum Scheme {
    Http,
    Https,
}

pub open spec fn scheme_text(s: Scheme) -> Seq<char> {
    match s {
        Scheme::Http => "http"@,
        Scheme::Https => "https"@,
    }
}

impl Scheme {
    /// The scheme named `name`, if it is one of `http` and `https`.
    pub fn parse(name: &str) -> (r: Option<Scheme>)
        ensures
            r == (if name@ == "http"@ {
                Some(Scheme::Http)
            } else if name@ == "https"@ {
                Some(Scheme::Https)
            } else {
                None
            }),
    {
        if crate::text::same_text(name, "http") {
            Some(Scheme::Http)
        } else if crate::text::same_text(name, "https") {
            Some(Scheme::Https)
        } else {
            None
        }
    }

    pub fn text(&self) -> (r: &'static str)
        ensures
            r@ == scheme_text(*self),
    {
        match self {
            Scheme::Http => "http",
            Scheme::Https => "https",
        }
    }
}

/// How one method of a service is called.
pub struct MethodDefinition {
    pub http_method: HttpMethod,
    pub path_and_query: String,
}

pub struct MethodModel {
    pub http_method: HttpMethod,
    pub path_and_query: Seq<char>,
}

impl View for MethodDefinition {
    type V = MethodModel;

    open spec fn view(&self) -> MethodModel {
        MethodModel { http_method: self.http_method, path_and_query: self.path_and_query@ }
    }
}

/// A REST service: where it lives, and its methods by name.
pub struct ServiceDefinition {
    pub scheme: Scheme,
    pub authority: String,
    pub methods: Table<MethodDefinition>,
}

impl ServiceDefinition {
    pub closed spec fn wf(&self) -> bool {
        self.methods.wf()
    }

    /// The methods of the service, by name.
    pub closed spec fn methods(&self) -> Map<Seq<char>, MethodModel> {
        Map::new(|k: Seq<char>| self.methods.dom().contains(k), |k: Seq<char>| self.methods.at(k)@)
    }

    /// A service with no methods yet.
    pub fn rest(scheme: Scheme, authority: String) -> (r: ServiceDefinition)
        ensures
            r.wf(),
            r.scheme == scheme,
            r.authority@ == authority@,
            r.methods() == Map::<Seq<char>, MethodModel>::empty(),
    {
        let r = ServiceDefinition { scheme, authority, methods: Table::new() };
        assert(r.methods() =~= Map::<Seq<char>, MethodModel>::empty());
        r
    }

    /// Adds, or replaces, the method `name`.
    pub fn add_method(&mut self, name: String, http_method: HttpMethod, path_and_query: String)
        requires
            old(self).wf(),
        ensures
            final(self).wf(),
            final(self).scheme == old(self).scheme,
            final(self).authority == old(self).authority,
            final(self).methods() == old(self).methods().insert(
                name@,
                MethodModel { http_method, path_and_query: path_and_query@ },
            ),
    {
        let ghost k = name@;
        let ghost m = MethodModel { http_method, path_and_query: path_and_query@ };
        self.methods.insert(name, MethodDefinition { http_method, path_and_query });
        assert(self.methods() =~= old(self).methods().insert(k, m));
    }

    /// The method named `name`.
    pub fn method(&self, name: &String) -> (r: Option<&MethodDefinition>)
        requires
            self.wf(),
        ensures
            match r {
                Some(m) => self.methods().contains_key(name@) && m@ == self.methods()[name@],
                None => !self.methods().contains_key(name@),
            },
    {
        self.methods.get(name)
    }
}

/// The backend services that steps may call, by name.
pub struct Services {
    services: Table<ServiceDefinition>,
}

impl Services {
    pub closed spec fn wf(&self) -> bool {
        &&& self.services.wf()
        &&& forall|k: Seq<char>| #[trigger] self.services.dom().contains(k) ==> self.services.at(k).wf()
    }

    pub closed spec fn names(&self) -> Set<Seq<char>> {
        self.services.dom()
    }

    /// The service filed under `name`.
    pub closed spec fn service(&self, name: Seq<char>) -> ServiceDefinition {
        self.services.at(name)
    }

    pub fn new() -> (r: Services)
        ensures
            r.wf(),
            r.names() == Set::<Seq<char>>::empty(),
    {
        Services { services: Table::new() }
    }

    /// Files `def` under `name`, in place of what was there.
    pub fn add(&mut self, name: String, def: ServiceDefinition)
        requires
            old(self).wf(),
            def.wf(),
        ensures
            final(self).wf(),
            final(self).names() == old(self).names().insert(name@),
            final(self).service(name@) == def,
            forall|k: Seq<char>|
                k != name@ && #[trigger] old(self).names().contains(k) ==> final(self).service(k)
                    == old(self).service(k),
    {
        self.services.insert(name, def);
    }

    /// The service named `name`.
    pub fn lookup(&self, name: &String) -> (r: Option<&ServiceDefinition>)
        requires
            self.wf(),
        ensures
            match r {
                Some(d) => self.names().contains(name@) && *d == self.service(name@) && d.wf(),
                None => !self.names().contains(name@),
            },
    {
        self.services.get(name)
    }
}

/// An entry of the image registry.
pub struct RegistryService {
    pub name: String,
    pub spec: String,
    pub pubkey: String,
}

} // verus!
