//! The service registry: named services, each with its method names, and
//! the lookup that answers `ServiceNotFound` or `MethodNotFound` exactly
//! when the spec says so. Handler bodies live outside the engine; a lookup
//! result names the service and method by index, and the surrounding code
//! runs the handler registered there.

use vstd::prelude::*;
use crate::message::Error;
use crate::util::bytes_eq;

verus! {

/// One registered service: its name and its method names, in registration
/// order.
pub struct ServiceEntry {
    /// The service name, the part before the last dot of a call.
    pub name: Vec<u8>,
    /// The method names this service answers.
    pub methods: Vec<Vec<u8>>,
}

/// The services one server hosts.
pub struct Server {
    /// The registered services, in registration order, names unique.
    pub services: Vec<ServiceEntry>,
}

/// Builds a [`Server`] by registering services one at a time.
pub struct ServerBuilder {
    /// The services registered so far.
    pub services: Vec<ServiceEntry>,
}

/// Index of the service in force under `name`: the one registered last.
pub open spec fn spec_find_service(services: Seq<ServiceEntry>, name: Seq<u8>) -> Option<int>
    decreases services.len(),
{
    if services.len() == 0 {
        None
    } else if services.last().name@ == name {
        Some(services.len() - 1)
    } else {
        spec_find_service(services.drop_last(), name)
    }
}

/// Index of the first method named `name`, if any.
pub open spec fn spec_find_method(methods: Seq<Vec<u8>>, name: Seq<u8>) -> Option<int>
    decreases methods.len(),
{
    if methods.len() == 0 {
        None
    } else if methods[0]@ == name {
        Some(0)
    } else {
        match spec_find_method(methods.skip(1), name) {
            None => None,
            Some(i) => Some(i + 1),
        }
    }
}

/// A found index lies in the list and names what was sought.
pub proof fn lemma_find_service(services: Seq<ServiceEntry>, name: Seq<u8>)
    ensures
        match spec_find_service(services, name) {
            Some(i) => 0 <= i < services.len() && services[i].name@ == name,
            None => forall|k: int| 0 <= k < services.len() ==> services[k].name@ != name,
        },
    decreases services.len(),
{
    if services.len() > 0 && services.last().name@ != name {
        lemma_find_service(services.drop_last(), name);
        assert(forall|k: int| 0 <= k < services.len() - 1
            ==> #[trigger] services[k] == services.drop_last()[k]);
    }
}

/// A found index lies in the list and names what was sought.
pub proof fn lemma_find_method(methods: Seq<Vec<u8>>, name: Seq<u8>)
    ensures
        match spec_find_method(methods, name) {
            Some(i) => 0 <= i < methods.len() && methods[i]@ == name,
            None => forall|k: int| 0 <= k < methods.len() ==> methods[k]@ != name,
        },
    decreases methods.len(),
{
    if methods.len() > 0 && methods[0]@ != name {
        lemma_find_method(methods.skip(1), name);
        assert(forall|k: int| 0 <= k < methods.len() - 1 ==> methods.skip(1)[k] == methods[k + 1]);
        if spec_find_method(methods.skip(1), name) is None {
            assert(forall|k: int| 1 <= k < methods.len()
                ==> #[trigger] methods[k]@ == methods.skip(1)[k - 1]@);
        }
    }
}

/// What looking a call up yields: the service and method indices, or the
/// exact error the caller is answered with.
pub open spec fn spec_lookup(
    services: Seq<ServiceEntry>,
    service: Seq<u8>,
    method: Seq<u8>,
) -> Result<(int, int), Error> {
    match spec_find_service(services, service) {
        None => Err(Error::ServiceNotFound),
        Some(si) => match spec_find_method(services[si].methods@, method) {
            None => Err(Error::MethodNotFound),
            Some(mi) => Ok((si, mi)),
        },
    }
}

/// Find the first service with the given name.
fn find_service(services: &Vec<ServiceEntry>, name: &[u8]) -> (r: Option<usize>)
    ensures
        match r {
            Some(i) => spec_find_service(services@, name@) == Some(i as int),
            None => spec_find_service(services@, name@) is None,
        },
{
    let mut i: usize = services.len();
    proof {
        assert(services@.take(services@.len() as int) =~= services@);
    }
    while i > 0
        invariant
            i <= services@.len(),
            spec_find_service(services@, name@)
                == spec_find_service(services@.take(i as int), name@),
        decreases i,
    {
        proof {
            assert(services@.take(i as int).drop_last() =~= services@.take(i - 1 as int));
            assert(services@.take(i as int).last() == services@[i - 1]);
        }
        if bytes_eq(services[i - 1].name.as_slice(), name) {
            return Some(i - 1);
        }
        i = i - 1;
    }
    proof {
        assert(services@.take(0) =~= Seq::<ServiceEntry>::empty());
    }
    None
}

/// Find the first method with the given name.
fn find_method(methods: &Vec<Vec<u8>>, name: &[u8]) -> (r: Option<usize>)
    ensures
        match r {
            Some(i) => spec_find_method(methods@, name@) == Some(i as int),
            None => spec_find_method(methods@, name@) is None,
        },
{
    let mut i: usize = 0;
    proof {
        assert(methods@.skip(0) =~= methods@);
    }
    loop
        invariant
            i <= methods@.len(),
            match spec_find_method(methods@.skip(i as int), name@) {
                None => spec_find_method(methods@, name@) is None,
                Some(k) => spec_find_method(methods@, name@) == Some(k + i),
            },
        decreases methods@.len() - i,
    {
        if i >= methods.len() {
            proof {
                assert(methods@.skip(i as int) =~= Seq::<Vec<u8>>::empty());
            }
            return None;
        }
        proof {
            assert(methods@.skip(i as int)[0] == methods@[i as int]);
            assert(methods@.skip(i as int).skip(1) =~= methods@.skip(i + 1 as int));
        }
        if bytes_eq(methods[i].as_slice(), name) {
            return Some(i);
        }
        i = i + 1;
    }
}

impl Server {
    /// Starts an empty [`ServerBuilder`].
    pub fn builder() -> (r: ServerBuilder)
        ensures
            r.services@.len() == 0,
    {
        ServerBuilder { services: Vec::new() }
    }

    /// Look a decoded `service.method` pair up. `Err(ServiceNotFound)` if
    /// and only if no service has the name; `Err(MethodNotFound)` if and
    /// only if the service exists but lacks the method; otherwise the
    /// indices of both.
    pub fn lookup(&self, service: &[u8], method: &[u8]) -> (r: Result<(usize, usize), Error>)
        ensures
            match r {
                Ok((si, mi)) => spec_lookup(self.services@, service@, method@) == Ok::<
                    (int, int),
                    Error,
                >((si as int, mi as int)),
                Err(Error::ServiceNotFound) => spec_find_service(self.services@, service@)
                    is None,
                Err(Error::MethodNotFound) => ({
                    &&& spec_find_service(self.services@, service@) is Some
                    &&& spec_find_method(
                        self.services@[spec_find_service(self.services@, service@)->Some_0]
                            .methods@,
                        method@,
                    ) is None
                }),
                _ => false,
            },
    {
        let si = match find_service(&self.services, service) {
            Some(si) => si,
            None => {
                return Err(Error::ServiceNotFound);
            },
        };
        proof {
            lemma_find_service(self.services@, service@);
        }
        match find_method(&self.services[si].methods, method) {
            Some(mi) => Ok((si, mi)),
            None => Err(Error::MethodNotFound),
        }
    }
}

impl ServerBuilder {
    /// Register a service. The lookup always answers with the service
    /// registered last under a name, so registering again replaces.
    pub fn register(&mut self, entry: ServiceEntry)
        ensures
            final(self).services@ == old(self).services@.push(entry),
    {
        self.services.push(entry);
    }

    /// Finish building: the server serves exactly the registered services.
    pub fn build(self) -> (r: Server)
        ensures
            r.services@ == self.services@,
    {
        Server { services: self.services }
    }
}

} // verus!
