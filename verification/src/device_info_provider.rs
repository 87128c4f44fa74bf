//! Device identifiers and the resolution of identifiers to status text.

use crate::provider::Provider;
use crate::text::str_eq;
use vstd::prelude::*;

verus! {

/// An opaque reference to a device instance: the name of the category whose
/// registry issued it, and the handle within that registry. It carries no
/// device state; resolution may fail, and that failure is meaningful data.
pub struct DeviceId(pub String, pub u8);

impl View for DeviceId {
    type V = (Seq<char>, u8);

    open spec fn view(&self) -> (Seq<char>, u8) {
        (self.0@, self.1)
    }
}

/// The single entry point that resolves a [`DeviceId`] to a status string,
/// whatever its category. Implementations state in [`Self::resolves`] which
/// identifiers they can serve.
pub trait DeviceInfoProvider {
    /// The status text, if any, this provider gives the identifier
    /// (`category`, `handle`).
    spec fn resolves(&self, category: Seq<char>, handle: u8) -> Option<Seq<char>>;

    /// The current status of the identified device; absent exactly when no
    /// category matches or the handle is unresolved in the matched category.
    fn get_info(&self, device_id: &DeviceId) -> (info: Option<String>)
        ensures
            info is Some <==> self.resolves(device_id.0@, device_id.1) is Some,
            info matches Some(text) ==> Some(text@) == self.resolves(device_id.0@, device_id.1),
    ;
}

/// What a row of category registries resolves: the first registry whose name
/// is `category` answers, by looking the handle up in its store.
pub open spec fn resolve_in(
    registries: Seq<Provider<String>>,
    category: Seq<char>,
    handle: u8,
) -> Option<Seq<char>>
    decreases registries.len(),
{
    if registries.len() == 0 {
        None
    } else if registries[0].name_spec() == category {
        if registries[0].store_spec().contains_key(handle) {
            Some(registries[0].store_spec()[handle]@)
        } else {
            None
        }
    } else {
        resolve_in(registries.drop_first(), category, handle)
    }
}

/// A [`DeviceInfoProvider`] composed of one status registry per device
/// category. Each registry stores the rendered status of its devices; new
/// categories are added by registering another registry, with no change to
/// the resolution logic.
pub struct StatusProvider {
    registries: Vec<Provider<String>>,
}

impl StatusProvider {
    /// The registered category registries, in registration order.
    pub closed spec fn registries_spec(&self) -> Seq<Provider<String>> {
        self.registries@
    }

    /// A provider that knows no categories.
    pub fn new() -> (provider: Self)
        ensures
            provider.registries_spec() == Seq::<Provider<String>>::empty(),
    {
        Self { registries: Vec::new() }
    }

    /// Registers one more category registry. An earlier registry of the same
    /// name keeps answering for that category.
    pub fn register(&mut self, registry: Provider<String>)
        ensures
            final(self).registries_spec() == old(self).registries_spec().push(registry),
    {
        self.registries.push(registry);
    }
}

impl DeviceInfoProvider for StatusProvider {
    open spec fn resolves(&self, category: Seq<char>, handle: u8) -> Option<Seq<char>> {
        resolve_in(self.registries_spec(), category, handle)
    }

    fn get_info(&self, device_id: &DeviceId) -> (info: Option<String>) {
        let n = self.registries.len();
        let mut i: usize = 0;
        proof {
            assert(self.registries@.skip(0) =~= self.registries@);
        }
        while i < n
            invariant
                i <= n,
                n == self.registries@.len(),
                resolve_in(self.registries@, device_id.0@, device_id.1) == resolve_in(
                    self.registries@.skip(i as int),
                    device_id.0@,
                    device_id.1,
                ),
            decreases n - i,
        {
            let registry = &self.registries[i];
            proof {
                assert(self.registries@.skip(i as int)[0] == self.registries@[i as int]);
            }
            if str_eq(registry.get_name(), device_id.0.as_str()) {
                return match registry.get(&device_id.1) {
                    Some(status) => Some(status.clone()),
                    None => None,
                };
            }
            proof {
                assert(self.registries@.skip(i as int).drop_first() =~= self.registries@.skip(
                    i as int + 1,
                ));
            }
            i += 1;
        }
        None
    }
}

} // verus!
