//! Third-party apps: signed manifests, custom object types, namespaces and quotas.

use vstd::prelude::*;
use crate::bytes::{push_all, push_le, le_bytes, be_bytes, arr64, id_eq};
use crate::crypto::{sha256_spec, tagged, hash_tagged, hash_tagged2, ed25519_key_valid, ed25519_verifies_lax, ed25519_verify_lax};
use vstd::string::StringSliceAdditionalSpecFns;
use crate::keyed_map::KeyedMap;
use crate::text::push_char;
use crate::object::types::NamespaceID;
use crate::model::ActorID;
use crate::api::NexAppApi;
use crate::identity::types::KeyType;
use crate::identity::authority::{derive_actor_id, actor_id_spec};

verus! {

#[derive(Debug)]
pub struct CustomObjectTypeRegistration {
    pub type_id: u16,
    pub name: String,
    pub schema_definition: String,
}

#[derive(Debug)]
pub struct AppCapabilityRequest {
    pub namespace_scope: String,
    pub allowed_operations: u32,
}

#[derive(Debug)]
pub struct AppManifest {
    pub manifest_version: String,
    pub app_id: String,
    pub name: String,
    pub version: String,
    pub min_nex_core_version: String,
    pub developer_actor_id: ActorID,
    pub developer_signature: Vec<u8>,
    pub requested_capabilities: Vec<AppCapabilityRequest>,
    pub registered_object_types: Vec<CustomObjectTypeRegistration>,
}

/// The bytes each registration contributes to a manifest digest: its type id
/// little-endian, then its name.
pub open spec fn registration_bytes(regs: Seq<CustomObjectTypeRegistration>) -> Seq<u8>
    decreases regs.len(),
{
    if regs.len() == 0 {
        Seq::empty()
    } else {
        registration_bytes(regs.drop_last()) + le_bytes(regs.last().type_id as nat, 2)
            + vstd::utf8::encode_utf8(regs.last().name@)
    }
}

/// What a manifest digest is taken over: app id, version, developer and registrations.
pub open spec fn manifest_preimage(m: AppManifest) -> Seq<u8> {
    vstd::utf8::encode_utf8(m.app_id@) + vstd::utf8::encode_utf8(m.version@) + m.developer_actor_id@
        + registration_bytes(m.registered_object_types@)
}

pub open spec fn manifest_digest(m: AppManifest) -> Seq<u8> {
    sha256_spec(tagged("NEX/MANIFEST/v1", manifest_preimage(m)))
}

impl AppManifest {
    /// The digest the developer signs.
    pub fn compute_canonical_digest(&self) -> (r: [u8; 32])
        ensures
            r@ == manifest_digest(*self),
    {
        let mut buf: Vec<u8> = Vec::new();
        push_all(&mut buf, self.app_id.as_str().as_bytes());
        push_all(&mut buf, self.version.as_str().as_bytes());
        push_all(&mut buf, self.developer_actor_id.as_slice());
        let ghost head = buf@;
        let regs = &self.registered_object_types;
        let mut i: usize = 0;
        while i < regs.len()
            invariant
                i <= regs@.len(),
                buf@ == head + registration_bytes(regs@.take(i as int)),
            decreases regs@.len() - i,
        {
            push_le(&mut buf, regs[i].type_id as u64, 2);
            push_all(&mut buf, regs[i].name.as_str().as_bytes());
            proof {
                let t = regs@.take(i + 1);
                assert(t.drop_last() =~= regs@.take(i as int));
                assert(buf@ =~= head + registration_bytes(t));
            }
            i = i + 1;
        }
        assert(regs@.take(regs@.len() as int) =~= regs@);
        assert(buf@ =~= manifest_preimage(*self));
        hash_tagged("NEX/MANIFEST/v1", buf.as_slice())
    }
}

#[derive(Debug, Clone, Copy, PartialEq, Eq, Structural)]
pub struct AppResourceQuota {
    pub max_memory_bytes: usize,
    pub max_fuel: u64,
    pub max_storage_bytes: u64,
    pub current_storage_bytes: u64,
}

/// The quota an app starts with: 256 MiB of memory, 50 million units of fuel,
/// 5 GiB of storage, none used.
pub open spec fn default_quota() -> AppResourceQuota {
    AppResourceQuota { max_memory_bytes: 268435456, max_fuel: 50000000, max_storage_bytes: 5368709120, current_storage_bytes: 0 }
}

impl Default for AppResourceQuota {
    fn default() -> (r: Self)
        ensures
            r == default_quota(),
    {
        AppResourceQuota { max_memory_bytes: 268435456, max_fuel: 50000000, max_storage_bytes: 5368709120, current_storage_bytes: 0 }
    }
}

/// An uppercase hexadecimal digit.
pub open spec fn hex_upper(d: nat) -> char {
    if d < 10 { (48 + d) as char } else { (55 + d) as char }
}

/// A 16-bit value as four uppercase hexadecimal digits (`{:04X}`).
pub open spec fn hex4(t: u16) -> Seq<char> {
    seq![hex_upper(((t as nat) / 4096) % 16), hex_upper(((t as nat) / 256) % 16),
        hex_upper(((t as nat) / 16) % 16), hex_upper((t as nat) % 16)]
}

fn push_hex4(s: &mut String, t: u16)
    ensures
        final(s)@ == old(s)@ + hex4(t),
{
    let ds: [u16; 4] = [(t / 4096) % 16, (t / 256) % 16, (t / 16) % 16, t % 16];
    let mut i: usize = 0;
    while i < 4
        invariant
            i <= 4,
            ds@ == seq![(t / 4096) % 16, (t / 256) % 16, (t / 16) % 16, t % 16],
            s@ == old(s)@ + hex4(t).take(i as int),
        decreases 4 - i,
    {
        let d: u16 = ds[i];
        let c: char = if d < 10 { ((48 + d) as u8) as char } else { ((55 + d) as u8) as char };
        assert(c == hex_upper(d as nat));
        push_char(s, c);
        assert(hex4(t).take(i + 1) =~= hex4(t).take(i as int).push(c));
        i = i + 1;
    }
    assert(hex4(t).take(4) =~= hex4(t));
}

/// The map key of a custom object type: its id big-endian.
pub open spec fn type_key(t: u16) -> Seq<u8> {
    be_bytes(t as nat, 2)
}

fn type_key_exec(t: u16) -> (r: [u8; 2])
    ensures
        r@ == type_key(t),
{
    let r = [(t / 256) as u8, (t % 256) as u8];
    assert(r@ =~= type_key(t)) by {
        reveal_with_fuel(be_bytes, 3);
    }
    r
}

/// The digest recorded for a custom type's schema.
pub open spec fn schema_digest(schema: Seq<char>) -> Seq<u8> {
    sha256_spec(tagged("NEX/SCHEMA/v1", vstd::utf8::encode_utf8(schema)))
}

/// The namespace of an app installed by a user.
pub open spec fn app_namespace(user: Seq<u8>, app_id: Seq<char>) -> Seq<u8> {
    sha256_spec(tagged("NEX/APP_NS/v1", user + vstd::utf8::encode_utf8(app_id)))
}

/// The registered schemas as plain values: owning app and schema digest by type key.
pub open spec fn schemas_view(m: Map<Seq<u8>, (String, [u8; 32])>) -> Map<Seq<u8>, (Seq<char>, Seq<u8>)> {
    Map::new(|k: Seq<u8>| m.contains_key(k), |k: Seq<u8>| (m[k].0@, m[k].1@))
}

/// Why a registration is refused, if it is: a type id outside 0x1000..=0xEFFF, or
/// one another app has claimed.
pub open spec fn registration_fault(reg: CustomObjectTypeRegistration, schemas: Map<Seq<u8>, (Seq<char>, Seq<u8>)>,
    app_id: Seq<char>) -> Option<Seq<char>> {
    let t = reg.type_id;
    if t < 0x1000 || t > 0xEFFF {
        Some("Invalid custom ObjectType 0x"@ + hex4(t) + ": outside 0x1000..0xEFFF range"@)
    } else if schemas.contains_key(type_key(t)) && schemas[type_key(t)].0 != app_id {
        Some("ObjectType 0x"@ + hex4(t) + " already claimed by app '"@ + schemas[type_key(t)].0 + "'"@)
    } else {
        None
    }
}

/// The fault of the first refused registration, if any.
pub open spec fn first_fault(regs: Seq<CustomObjectTypeRegistration>, schemas: Map<Seq<u8>, (Seq<char>, Seq<u8>)>,
    app_id: Seq<char>) -> Option<Seq<char>>
    decreases regs.len(),
{
    if regs.len() == 0 {
        None
    } else if first_fault(regs.drop_last(), schemas, app_id) is Some {
        first_fault(regs.drop_last(), schemas, app_id)
    } else {
        registration_fault(regs.last(), schemas, app_id)
    }
}

proof fn lemma_first_fault_prefix(regs: Seq<CustomObjectTypeRegistration>, schemas: Map<Seq<u8>, (Seq<char>, Seq<u8>)>,
    app_id: Seq<char>, j: int)
    requires
        0 <= j <= regs.len(),
        first_fault(regs.take(j), schemas, app_id) is Some,
    ensures
        first_fault(regs, schemas, app_id) == first_fault(regs.take(j), schemas, app_id),
    decreases regs.len() - j,
{
    if j < regs.len() {
        assert(regs.take(j + 1).drop_last() =~= regs.take(j));
        lemma_first_fault_prefix(regs, schemas, app_id, j + 1);
    } else {
        assert(regs.take(j) =~= regs);
    }
}

/// The schemas after registering each type in order for `app_id` (a later
/// registration of the same type wins).
pub open spec fn registered(schemas: Map<Seq<u8>, (Seq<char>, Seq<u8>)>, regs: Seq<CustomObjectTypeRegistration>,
    app_id: Seq<char>) -> Map<Seq<u8>, (Seq<char>, Seq<u8>)>
    decreases regs.len(),
{
    if regs.len() == 0 {
        schemas
    } else {
        registered(schemas, regs.drop_last(), app_id).insert(type_key(regs.last().type_id),
            (app_id, schema_digest(regs.last().schema_definition@)))
    }
}

/// The schemas after dropping each listed type.
pub open spec fn unregistered(schemas: Map<Seq<u8>, (Seq<char>, Seq<u8>)>, regs: Seq<CustomObjectTypeRegistration>)
    -> Map<Seq<u8>, (Seq<char>, Seq<u8>)>
    decreases regs.len(),
{
    if regs.len() == 0 {
        schemas
    } else {
        unregistered(schemas, regs.drop_last()).remove(type_key(regs.last().type_id))
    }
}

pub struct NexExtensionHost<A: NexAppApi> {
    pub user_actor_id: ActorID,
    pub api: A,
    pub installed_apps: KeyedMap<String, AppManifest>,
    pub app_namespaces: KeyedMap<String, NamespaceID>,
    /// Owning app and schema digest, by custom type id (two bytes, big-endian).
    pub registered_schemas: KeyedMap<[u8; 2], (String, [u8; 32])>,
    pub quotas: KeyedMap<String, AppResourceQuota>,
}

/// The key of a name in a string-keyed map.
pub open spec fn name_key(s: Seq<char>) -> Seq<u8> {
    vstd::utf8::encode_utf8(s)
}

impl<A: NexAppApi> NexExtensionHost<A> {
    pub fn new(user_actor_id: ActorID, api: A) -> (r: Self)
        ensures
            r.user_actor_id == user_actor_id,
            r.api == api,
            r.installed_apps@ == Map::<Seq<u8>, AppManifest>::empty(),
            r.app_namespaces@ == Map::<Seq<u8>, NamespaceID>::empty(),
            r.registered_schemas@ == Map::<Seq<u8>, (String, [u8; 32])>::empty(),
            r.quotas@ == Map::<Seq<u8>, AppResourceQuota>::empty(),
    {
        NexExtensionHost {
            user_actor_id,
            api,
            installed_apps: KeyedMap::new(),
            app_namespaces: KeyedMap::new(),
            registered_schemas: KeyedMap::new(),
            quotas: KeyedMap::new(),
        }
    }

    pub fn derive_app_namespace(&self, app_id: &str) -> (r: NamespaceID)
        ensures
            r@ == app_namespace(self.user_actor_id@, app_id@),
    {
        hash_tagged2("NEX/APP_NS/v1", self.user_actor_id.as_slice(), app_id.as_bytes())
    }
    /// Why a registration of `app_id`'s is refused against the current schemas, if it is.
    fn registration_fault_exec(&self, reg: &CustomObjectTypeRegistration, app_id: &String) -> (r: Option<String>)
        ensures
            r is None <==> registration_fault(*reg, schemas_view(self.registered_schemas@), app_id@) is None,
            r matches Some(e) ==> registration_fault(*reg, schemas_view(self.registered_schemas@), app_id@) == Some(e@),
    {
        let t = reg.type_id;
        if t < 0x1000 || t > 0xEFFF {
            let mut msg = "Invalid custom ObjectType 0x".to_string();
            push_hex4(&mut msg, t);
            vstd::string::StringExecFns::append(&mut msg, ": outside 0x1000..0xEFFF range");
            return Some(msg);
        }
        let k = type_key_exec(t);
        match self.registered_schemas.get(&k) {
            Some(v) => {
                if v.0 != *app_id {
                    let mut msg = "ObjectType 0x".to_string();
                    push_hex4(&mut msg, t);
                    vstd::string::StringExecFns::append(&mut msg, " already claimed by app '");
                    vstd::string::StringExecFns::append(&mut msg, v.0.as_str());
                    vstd::string::StringExecFns::append(&mut msg, "'");
                    Some(msg)
                } else {
                    None
                }
            }
            None => None,
        }
    }

    /// The fault of the first refused registration, if any.
    fn first_registration_fault(&self, regs: &Vec<CustomObjectTypeRegistration>, app_id: &String) -> (r: Option<String>)
        ensures
            r is None <==> first_fault(regs@, schemas_view(self.registered_schemas@), app_id@) is None,
            r matches Some(e) ==> first_fault(regs@, schemas_view(self.registered_schemas@), app_id@) == Some(e@),
    {
        let ghost sv = schemas_view(self.registered_schemas@);
        let mut i: usize = 0;
        while i < regs.len()
            invariant
                i <= regs@.len(),
                sv == schemas_view(self.registered_schemas@),
                first_fault(regs@.take(i as int), sv, app_id@) is None,
            decreases regs@.len() - i,
        {
            proof {
                assert(regs@.take(i + 1).drop_last() =~= regs@.take(i as int));
                assert(regs@.take(i + 1).last() == regs@[i as int]);
            }
            match self.registration_fault_exec(&regs[i], app_id) {
                Some(msg) => {
                    proof {
                        lemma_first_fault_prefix(regs@, sv, app_id@, i + 1);
                    }
                    return Some(msg);
                }
                None => {}
            }
            i = i + 1;
        }
        proof {
            assert(regs@.take(regs@.len() as int) =~= regs@);
        }
        None
    }

    /// Installs an app: checks that the developer id is that of the given Ed25519
    /// key and that the key signs the manifest digest, then that every custom type
    /// lies in 0x1000..=0xEFFF and is not claimed by another app (the first refused
    /// registration is reported); then registers the schemas, the app's namespace,
    /// the default quota and the manifest. On any error nothing changes.
    pub fn install_app(&mut self, manifest: AppManifest, developer_pubkey_bytes: &[u8; 32]) -> (r: Result<NamespaceID, String>)
        ensures
            ({
                let m = manifest;
                let pk = developer_pubkey_bytes@;
                let sig = m.developer_signature@;
                let actor_ok = m.developer_actor_id@ == actor_id_spec(KeyType::Ed25519.spec_tag(), pk);
                let key_ok = ed25519_key_valid(pk);
                let sig_ok = sig.len() == 64 && ed25519_verifies_lax(pk, manifest_digest(m), sig);
                let fault = first_fault(m.registered_object_types@, schemas_view(old(self).registered_schemas@), m.app_id@);
                let k = name_key(m.app_id@);
                &&& !actor_ok ==> (r matches Err(e) && e@ == "Developer ActorID does not match provided public key"@)
                &&& actor_ok && !key_ok ==> (r matches Err(e) && "Invalid developer pubkey: "@.is_prefix_of(e@))
                &&& actor_ok && key_ok && sig.len() != 64 ==> (r matches Err(e) && e@ == "Signature must be 64 bytes"@)
                &&& actor_ok && key_ok && sig.len() == 64 && !sig_ok ==> (r matches Err(e)
                    && "Manifest signature verification failed: "@.is_prefix_of(e@))
                &&& actor_ok && key_ok && sig_ok && fault is Some ==> (r matches Err(e) && e@ == fault->Some_0)
                &&& r is Ok <==> actor_ok && key_ok && sig_ok && fault is None
                &&& r is Err ==> {
                    &&& final(self).installed_apps@ == old(self).installed_apps@
                    &&& final(self).app_namespaces@ == old(self).app_namespaces@
                    &&& final(self).registered_schemas@ == old(self).registered_schemas@
                    &&& final(self).quotas@ == old(self).quotas@
                }
                &&& r matches Ok(ns) ==> {
                    &&& ns@ == app_namespace(old(self).user_actor_id@, m.app_id@)
                    &&& schemas_view(final(self).registered_schemas@)
                        == registered(schemas_view(old(self).registered_schemas@), m.registered_object_types@, m.app_id@)
                    &&& final(self).app_namespaces@ == old(self).app_namespaces@.insert(k, ns)
                    &&& final(self).quotas@ == old(self).quotas@.insert(k, default_quota())
                    &&& final(self).installed_apps@ == old(self).installed_apps@.insert(k, m)
                }
            }),
            final(self).user_actor_id == old(self).user_actor_id,
    {
        let expected_actor = derive_actor_id(KeyType::Ed25519, developer_pubkey_bytes.as_slice());
        if !id_eq(&manifest.developer_actor_id, &expected_actor) {
            return Err("Developer ActorID does not match provided public key".to_string());
        }
        let sig_len = manifest.developer_signature.len();
        let digest = manifest.compute_canonical_digest();
        let checked = if sig_len == 64 {
            let sig_bytes = arr64(manifest.developer_signature.as_slice());
            ed25519_verify_lax(developer_pubkey_bytes, digest.as_slice(), &sig_bytes)
        } else {
            ed25519_verify_lax(developer_pubkey_bytes, digest.as_slice(), &[0u8; 64])
        };
        match checked {
            Err(e) => {
                let mut msg = "Invalid developer pubkey: ".to_string();
                vstd::string::StringExecFns::append(&mut msg, e.as_str());
                return Err(msg);
            }
            Ok(v) => {
                if sig_len != 64 {
                    return Err("Signature must be 64 bytes".to_string());
                }
                match v {
                    Ok(()) => {}
                    Err(e) => {
                        let mut msg = "Manifest signature verification failed: ".to_string();
                        vstd::string::StringExecFns::append(&mut msg, e.as_str());
                        return Err(msg);
                    }
                }
            }
        }
        let regs = &manifest.registered_object_types;
        let ghost sv0 = schemas_view(self.registered_schemas@);
        let ghost app = manifest.app_id@;
        match self.first_registration_fault(regs, &manifest.app_id) {
            Some(msg) => {
                return Err(msg);
            }
            None => {}
        }
        let mut j: usize = 0;
        while j < regs.len()
            invariant
                j <= regs@.len(),
                regs@ == manifest.registered_object_types@,
                app == manifest.app_id@,
                schemas_view(self.registered_schemas@) == registered(sv0, regs@.take(j as int), app),
                self.installed_apps@ == old(self).installed_apps@,
                self.app_namespaces@ == old(self).app_namespaces@,
                self.quotas@ == old(self).quotas@,
                self.user_actor_id == old(self).user_actor_id,
            decreases regs@.len() - j,
        {
            let k = type_key_exec(regs[j].type_id);
            let schema_digest_bytes = hash_tagged("NEX/SCHEMA/v1", regs[j].schema_definition.as_str().as_bytes());
            let ghost before = self.registered_schemas@;
            self.registered_schemas.insert(k, (manifest.app_id.clone(), schema_digest_bytes));
            proof {
                assert(regs@.take(j + 1).drop_last() =~= regs@.take(j as int));
                assert(schemas_view(self.registered_schemas@) =~= schemas_view(before).insert(k@,
                    (app, schema_digest_bytes@)));
            }
            j = j + 1;
        }
        proof {
            assert(regs@.take(regs@.len() as int) =~= regs@);
        }
        let app_ns = self.derive_app_namespace(manifest.app_id.as_str());
        self.app_namespaces.insert(manifest.app_id.clone(), app_ns);
        self.quotas.insert(manifest.app_id.clone(), AppResourceQuota::default());
        let key = manifest.app_id.clone();
        self.installed_apps.insert(key, manifest);
        Ok(app_ns)
    }

    /// Runs an installed app on `input_payload` within its fuel quota: the output
    /// is the input behind the sandbox's output marker.
    pub fn execute_sandbox(&mut self, app_id: &str, input_payload: &[u8], fuel_requested: u64) -> (r: Result<Vec<u8>, String>)
        ensures
            ({
                let k = name_key(app_id@);
                &&& !old(self).installed_apps@.contains_key(k) ==> (r matches Err(e)
                    && e@ == "App '"@ + app_id@ + "' not installed"@)
                &&& old(self).installed_apps@.contains_key(k) && !old(self).quotas@.contains_key(k)
                    ==> (r matches Err(e) && e@ == "Quota not found"@)
                &&& old(self).installed_apps@.contains_key(k) && old(self).quotas@.contains_key(k)
                    && fuel_requested > old(self).quotas@[k].max_fuel
                    ==> (r matches Err(e) && e@ == "Execution fuel limit exceeded (infinite loop protection)"@)
                &&& old(self).installed_apps@.contains_key(k) && old(self).quotas@.contains_key(k)
                    && fuel_requested <= old(self).quotas@[k].max_fuel
                    ==> (r matches Ok(out) && out@ == "WASM_SANDBOX_OUT:".spec_bytes() + input_payload@)
            }),
            final(self).installed_apps@ == old(self).installed_apps@,
            final(self).app_namespaces@ == old(self).app_namespaces@,
            final(self).registered_schemas@ == old(self).registered_schemas@,
            final(self).quotas@ == old(self).quotas@,
    {
        let key = app_id.to_string();
        if !self.installed_apps.contains_key(&key) {
            let mut msg = "App '".to_string();
            vstd::string::StringExecFns::append(&mut msg, app_id);
            vstd::string::StringExecFns::append(&mut msg, "' not installed");
            return Err(msg);
        }
        let max_fuel = match self.quotas.get(&key) {
            Some(q) => q.max_fuel,
            None => {
                return Err("Quota not found".to_string());
            }
        };
        if fuel_requested > max_fuel {
            return Err("Execution fuel limit exceeded (infinite loop protection)".to_string());
        }
        let mut output: Vec<u8> = Vec::new();
        push_all(&mut output, "WASM_SANDBOX_OUT:".as_bytes());
        push_all(&mut output, input_payload);
        Ok(output)
    }

    /// Uninstalls an app: drops its manifest, the schemas of the types it lists,
    /// its namespace and its quota; an error, changing nothing, when it is not installed.
    pub fn uninstall_app(&mut self, app_id: &str) -> (r: Result<(), String>)
        ensures
            ({
                let k = name_key(app_id@);
                &&& !old(self).installed_apps@.contains_key(k) ==> (r matches Err(e) && e@ == "App not installed"@
                    && final(self).installed_apps@ == old(self).installed_apps@
                    && final(self).app_namespaces@ == old(self).app_namespaces@
                    && final(self).registered_schemas@ == old(self).registered_schemas@
                    && final(self).quotas@ == old(self).quotas@)
                &&& old(self).installed_apps@.contains_key(k) ==> (r is Ok
                    && final(self).installed_apps@ == old(self).installed_apps@.remove(k)
                    && schemas_view(final(self).registered_schemas@) == unregistered(
                        schemas_view(old(self).registered_schemas@), old(self).installed_apps@[k].registered_object_types@)
                    && final(self).app_namespaces@ == old(self).app_namespaces@.remove(k)
                    && final(self).quotas@ == old(self).quotas@.remove(k))
            }),
            final(self).user_actor_id == old(self).user_actor_id,
    {
        let key = app_id.to_string();
        match self.installed_apps.remove(&key) {
            Some(manifest) => {
                let regs = &manifest.registered_object_types;
                let ghost sv0 = schemas_view(self.registered_schemas@);
                let mut j: usize = 0;
                while j < regs.len()
                    invariant
                        j <= regs@.len(),
                        schemas_view(self.registered_schemas@) == unregistered(sv0, regs@.take(j as int)),
                        self.installed_apps@ == old(self).installed_apps@.remove(name_key(key@)),
                        self.app_namespaces@ == old(self).app_namespaces@,
                        self.quotas@ == old(self).quotas@,
                        self.user_actor_id == old(self).user_actor_id,
                        key@ == app_id@,
                    decreases regs@.len() - j,
                {
                    let k = type_key_exec(regs[j].type_id);
                    let ghost before = self.registered_schemas@;
                    self.registered_schemas.remove(&k);
                    proof {
                        assert(regs@.take(j + 1).drop_last() =~= regs@.take(j as int));
                        assert(schemas_view(self.registered_schemas@) =~= schemas_view(before).remove(k@));
                    }
                    j = j + 1;
                }
                proof {
                    assert(regs@.take(regs@.len() as int) =~= regs@);
                }
                self.app_namespaces.remove(&key);
                self.quotas.remove(&key);
                Ok(())
            }
            None => Err("App not installed".to_string()),
        }
    }

}

} // verus!
