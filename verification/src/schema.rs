//! The telemetry schema configuration: endpoint and message type entries,
//! normalization of legacy fields, the merge of a board-local IPC overlay,
//! and the checks applied to a schema before use.
use vstd::prelude::*;

use crate::text::{chars_to_string, push_quoted, push_str, quoted_chars, str_eq};
use crate::ReliableMode;

verus! {

/// An endpoint entry of the schema.
pub struct JsonEndpoint {
    /// Rust enum variant, e.g. `Radio`.
    pub rust: String,
    /// Schema name, e.g. `RADIO` (all capitals).
    pub name: String,
    /// Optional documentation of the variant.
    pub doc: Option<String>,
    /// Deprecated legacy field, normalized into `link_local_only`.
    pub deprecated_broadcast_mode: Option<String>,
    /// Whether the endpoint stays on the local link.
    pub link_local_only: Option<bool>,
}

/// The element layout of a message type.
pub enum JsonElement {
    Static { count: usize, data_type: String },
    Dynamic { data_type: String },
}

/// A message type entry of the schema.
pub struct JsonType {
    /// Rust enum variant, e.g. `GpsData`.
    pub rust: String,
    /// Schema name, e.g. `GPS_DATA` (all capitals).
    pub name: String,
    /// Optional documentation of the variant.
    pub doc: Option<String>,
    /// Legacy reliable flag.
    pub reliable: Option<bool>,
    /// Reliable delivery mode name.
    pub reliable_mode: Option<String>,
    /// Queue priority.
    pub priority: Option<u8>,
    /// Element layout.
    pub element: JsonElement,
    /// Message class name.
    pub class: String,
    /// Default destination endpoints, by Rust variant name.
    pub endpoints: Vec<String>,
}

/// A telemetry schema: its endpoints and message types.
pub struct TelemetryConfig {
    pub endpoints: Vec<JsonEndpoint>,
    pub types: Vec<JsonType>,
}

// ---------------------------------------------------------------------------
// Normalization
// ---------------------------------------------------------------------------

/// Whether the legacy broadcast mode of an endpoint is `Never`.
pub open spec fn legacy_never(ep: JsonEndpoint) -> bool {
    ep.deprecated_broadcast_mode matches Some(m) && m@ == "Never"@
}

/// A base-schema endpoint after normalization: link-local only exactly
/// when its legacy broadcast mode is `Never`.
pub open spec fn normalized_endpoint(ep: JsonEndpoint) -> JsonEndpoint {
    JsonEndpoint { link_local_only: Some(legacy_never(ep)), ..ep }
}

fn is_legacy_never(ep: &JsonEndpoint) -> (r: bool)
    ensures
        r == legacy_never(*ep),
{
    match &ep.deprecated_broadcast_mode {
        Some(m) => str_eq(m.as_str(), "Never"),
        None => false,
    }
}

/// Apply the legacy broadcast mode: `Never` makes the endpoint link-local
/// only; otherwise the endpoint is unchanged.
pub fn normalize_endpoint_legacy_fields(ep: &mut JsonEndpoint)
    ensures
        legacy_never(*old(ep)) ==> *final(ep) == (JsonEndpoint { link_local_only: Some(true), ..*old(ep) }),
        !legacy_never(*old(ep)) ==> *final(ep) == *old(ep),
{
    if is_legacy_never(ep) {
        ep.link_local_only = Some(true);
    }
}

/// Normalize a base schema: its endpoints are link-local only exactly when
/// their legacy broadcast mode is `Never`; types are unchanged.
pub fn normalize_base_schema(cfg: &mut TelemetryConfig)
    ensures
        final(cfg).endpoints@ == old(cfg).endpoints@.map_values(|e: JsonEndpoint| normalized_endpoint(e)),
        final(cfg).types == old(cfg).types,
{
    let mut eps: Vec<JsonEndpoint> = Vec::new();
    std::mem::swap(&mut eps, &mut cfg.endpoints);
    let ghost orig = eps@;
    let mut rev: Vec<JsonEndpoint> = Vec::new();
    while eps.len() > 0
        invariant
            eps@.len() + rev@.len() == orig.len(),
            eps@ == orig.take(eps@.len() as int),
            forall|i: int| 0 <= i < rev@.len() ==> #[trigger] rev@[i] == normalized_endpoint(orig[orig.len() - 1 - i]),
        decreases eps@.len(),
    {
        let ghost n = eps@.len();
        let mut ep = eps.pop().unwrap();
        proof {
            assert(ep == orig[n - 1]);
            assert(eps@ =~= orig.take(n - 1));
        }
        normalize_endpoint_legacy_fields(&mut ep);
        if !is_legacy_never(&ep) {
            ep.link_local_only = Some(false);
        }
        rev.push(ep);
    }
    let mut out: Vec<JsonEndpoint> = Vec::new();
    while rev.len() > 0
        invariant
            rev@.len() + out@.len() == orig.len(),
            forall|i: int| 0 <= i < rev@.len() ==> #[trigger] rev@[i] == normalized_endpoint(orig[orig.len() - 1 - i]),
            forall|i: int| 0 <= i < out@.len() ==> #[trigger] out@[i] == normalized_endpoint(orig[i]),
        decreases rev@.len(),
    {
        let ep = rev.pop().unwrap();
        out.push(ep);
    }
    assert(out@ =~= orig.map_values(|e: JsonEndpoint| normalized_endpoint(e)));
    cfg.endpoints = out;
}

// ---------------------------------------------------------------------------
// IPC overlay merge
// ---------------------------------------------------------------------------

/// Rust variant names of endpoints.
pub open spec fn ep_rusts(s: Seq<JsonEndpoint>) -> Seq<Seq<char>> {
    s.map_values(|e: JsonEndpoint| e.rust@)
}

/// Schema names of endpoints.
pub open spec fn ep_names(s: Seq<JsonEndpoint>) -> Seq<Seq<char>> {
    s.map_values(|e: JsonEndpoint| e.name@)
}

/// Rust variant names of types.
pub open spec fn ty_rusts(s: Seq<JsonType>) -> Seq<Seq<char>> {
    s.map_values(|t: JsonType| t.rust@)
}

/// Schema names of types.
pub open spec fn ty_names(s: Seq<JsonType>) -> Seq<Seq<char>> {
    s.map_values(|t: JsonType| t.name@)
}

/// The first overlay entry, from `i` on, whose first key (`a`) or second
/// key (`b`) repeats a base key or a key of an earlier overlay entry;
/// `true` when it is the first key that repeats.
pub open spec fn first_clash(
    seen_a: Seq<Seq<char>>,
    a: Seq<Seq<char>>,
    seen_b: Seq<Seq<char>>,
    b: Seq<Seq<char>>,
    i: nat,
) -> Option<(int, bool)>
    decreases a.len() - i,
{
    if i >= a.len() {
        None
    } else if (seen_a + a.take(i as int)).contains(a[i as int]) {
        Some((i as int, true))
    } else if (seen_b + b.take(i as int)).contains(b[i as int]) {
        Some((i as int, false))
    } else {
        first_clash(seen_a, a, seen_b, b, i + 1)
    }
}

/// The error reported for an overlay key that collides.
pub open spec fn clash_message(path: Seq<char>, what: Seq<char>, value: Seq<char>) -> Seq<char> {
    path + ": IPC overlay "@ + what + " "@ + quoted_chars(value) + " collides with the base schema"@
}

/// The error of merging `overlay` into `base`, if any: the first colliding
/// endpoint (Rust variant, then name), else the first colliding type.
pub open spec fn spec_merge_error(base: Seq<JsonEndpoint>, base_types: Seq<JsonType>, ov: Seq<JsonEndpoint>, ov_types: Seq<JsonType>, path: Seq<char>) -> Option<Seq<char>> {
    match first_clash(ep_rusts(base), ep_rusts(ov), ep_names(base), ep_names(ov), 0) {
        Some((i, true)) => Some(clash_message(path, "endpoint rust variant"@, ov[i].rust@)),
        Some((i, false)) => Some(clash_message(path, "endpoint name"@, ov[i].name@)),
        None => match first_clash(ty_rusts(base_types), ty_rusts(ov_types), ty_names(base_types), ty_names(ov_types), 0) {
            Some((i, true)) => Some(clash_message(path, "type rust variant"@, ov_types[i].rust@)),
            Some((i, false)) => Some(clash_message(path, "type name"@, ov_types[i].name@)),
            None => None,
        },
    }
}

/// An overlay endpoint as merged: always link-local only.
pub open spec fn overlay_endpoint(ep: JsonEndpoint) -> JsonEndpoint {
    JsonEndpoint { link_local_only: Some(true), ..ep }
}

/// Whether `x` is among the first `n` strings of `v`, or in `base`.
fn seen_before(base: &Vec<String>, v: &Vec<String>, n: usize, x: &str) -> (r: bool)
    requires
        n <= v@.len(),
    ensures
        r == (base@.map_values(|s: String| s@) + v@.map_values(|s: String| s@).take(n as int)).contains(x@),
{
    let ghost all = base@.map_values(|s: String| s@) + v@.map_values(|s: String| s@).take(n as int);
    let mut i: usize = 0;
    while i < base.len()
        invariant
            i <= base@.len(),
            n <= v@.len(),
            all == base@.map_values(|s: String| s@) + v@.map_values(|s: String| s@).take(n as int),
            forall|j: int| 0 <= j < i ==> base@[j]@ != x@,
        decreases base@.len() - i,
    {
        if str_eq(base[i].as_str(), x) {
            assert(all[i as int] == x@);
            return true;
        }
        i = i + 1;
    }
    let mut k: usize = 0;
    while k < n
        invariant
            k <= n,
            n <= v@.len(),
            all == base@.map_values(|s: String| s@) + v@.map_values(|s: String| s@).take(n as int),
            forall|j: int| 0 <= j < base@.len() ==> base@[j]@ != x@,
            forall|j: int| 0 <= j < k ==> v@[j]@ != x@,
        decreases n - k,
    {
        if str_eq(v[k].as_str(), x) {
            assert(all[base@.len() + k] == x@);
            return true;
        }
        k = k + 1;
    }
    proof {
        if all.contains(x@) {
            let j = choose|j: int| 0 <= j < all.len() && all[j] == x@;
            if j < base@.len() {
                assert(base@[j]@ == x@);
            } else {
                assert(v@[j - base@.len()]@ == x@);
            }
        }
    }
    false
}

fn endpoint_rusts(s: &Vec<JsonEndpoint>) -> (r: Vec<String>)
    ensures
        r@.map_values(|x: String| x@) == ep_rusts(s@),
{
    let mut out: Vec<String> = Vec::new();
    let mut i: usize = 0;
    while i < s.len()
        invariant
            i <= s@.len(),
            out@.len() == i,
            forall|j: int| 0 <= j < i ==> #[trigger] out@[j]@ == s@[j].rust@,
        decreases s@.len() - i,
    {
        out.push(s[i].rust.clone());
        i = i + 1;
    }
    assert(out@.map_values(|x: String| x@) =~= ep_rusts(s@));
    out
}

fn endpoint_names(s: &Vec<JsonEndpoint>) -> (r: Vec<String>)
    ensures
        r@.map_values(|x: String| x@) == ep_names(s@),
{
    let mut out: Vec<String> = Vec::new();
    let mut i: usize = 0;
    while i < s.len()
        invariant
            i <= s@.len(),
            out@.len() == i,
            forall|j: int| 0 <= j < i ==> #[trigger] out@[j]@ == s@[j].name@,
        decreases s@.len() - i,
    {
        out.push(s[i].name.clone());
        i = i + 1;
    }
    assert(out@.map_values(|x: String| x@) =~= ep_names(s@));
    out
}

fn type_rusts(s: &Vec<JsonType>) -> (r: Vec<String>)
    ensures
        r@.map_values(|x: String| x@) == ty_rusts(s@),
{
    let mut out: Vec<String> = Vec::new();
    let mut i: usize = 0;
    while i < s.len()
        invariant
            i <= s@.len(),
            out@.len() == i,
            forall|j: int| 0 <= j < i ==> #[trigger] out@[j]@ == s@[j].rust@,
        decreases s@.len() - i,
    {
        out.push(s[i].rust.clone());
        i = i + 1;
    }
    assert(out@.map_values(|x: String| x@) =~= ty_rusts(s@));
    out
}

fn type_names(s: &Vec<JsonType>) -> (r: Vec<String>)
    ensures
        r@.map_values(|x: String| x@) == ty_names(s@),
{
    let mut out: Vec<String> = Vec::new();
    let mut i: usize = 0;
    while i < s.len()
        invariant
            i <= s@.len(),
            out@.len() == i,
            forall|j: int| 0 <= j < i ==> #[trigger] out@[j]@ == s@[j].name@,
        decreases s@.len() - i,
    {
        out.push(s[i].name.clone());
        i = i + 1;
    }
    assert(out@.map_values(|x: String| x@) =~= ty_names(s@));
    out
}

/// The first clash between two key lists of overlay entries and those of
/// the base, as [`first_clash`].
fn find_clash(seen_a: &Vec<String>, a: &Vec<String>, seen_b: &Vec<String>, b: &Vec<String>) -> (r: Option<(usize, bool)>)
    requires
        a@.len() == b@.len(),
    ensures
        match r {
            Some((i, k)) => first_clash(
                seen_a@.map_values(|s: String| s@),
                a@.map_values(|s: String| s@),
                seen_b@.map_values(|s: String| s@),
                b@.map_values(|s: String| s@),
                0,
            ) == Some((i as int, k)) && i < a@.len(),
            None => first_clash(
                seen_a@.map_values(|s: String| s@),
                a@.map_values(|s: String| s@),
                seen_b@.map_values(|s: String| s@),
                b@.map_values(|s: String| s@),
                0,
            ) is None,
        },
{
    let ghost sa = seen_a@.map_values(|s: String| s@);
    let ghost va = a@.map_values(|s: String| s@);
    let ghost sb = seen_b@.map_values(|s: String| s@);
    let ghost vb = b@.map_values(|s: String| s@);
    let mut i: usize = 0;
    while i < a.len()
        invariant
            i <= a@.len(),
            a@.len() == b@.len(),
            sa == seen_a@.map_values(|s: String| s@),
            va == a@.map_values(|s: String| s@),
            sb == seen_b@.map_values(|s: String| s@),
            vb == b@.map_values(|s: String| s@),
            first_clash(sa, va, sb, vb, 0) == first_clash(sa, va, sb, vb, i as nat),
        decreases a@.len() - i,
    {
        if seen_before(seen_a, a, i, a[i].as_str()) {
            return Some((i, true));
        }
        if seen_before(seen_b, b, i, b[i].as_str()) {
            return Some((i, false));
        }
        i = i + 1;
    }
    None
}

fn push_clash_message(path: &str, what: &str, value: &str) -> (r: String)
    ensures
        r@ == clash_message(path@, what@, value@),
{
    let mut out: Vec<char> = Vec::new();
    push_str(&mut out, path);
    push_str(&mut out, ": IPC overlay ");
    push_str(&mut out, what);
    push_str(&mut out, " ");
    push_quoted(&mut out, value);
    push_str(&mut out, " collides with the base schema");
    assert(out@ =~= clash_message(path@, what@, value@));
    chars_to_string(out)
}

/// Merge a board-local IPC overlay into a base schema.
///
/// Every overlay endpoint becomes link-local only. An overlay endpoint or
/// type whose Rust variant or name is already used (by the base or by an
/// earlier overlay entry) is refused with a message naming `overlay_path`,
/// and the base is left unchanged; otherwise the overlay entries are
/// appended.
pub fn merge_ipc_overlay(base: &mut TelemetryConfig, overlay: TelemetryConfig, overlay_path: &str) -> (r: Result<(), String>)
    ensures
        match spec_merge_error(old(base).endpoints@, old(base).types@, overlay.endpoints@, overlay.types@, overlay_path@) {
            Some(msg) => r matches Err(m) && m@ == msg && *final(base) == *old(base),
            None => r is Ok
                && final(base).endpoints@ == old(base).endpoints@ + overlay.endpoints@.map_values(|e: JsonEndpoint| overlay_endpoint(e))
                && final(base).types@ == old(base).types@ + overlay.types@,
        },
{
    let base_ep_rust = endpoint_rusts(&base.endpoints);
    let base_ep_name = endpoint_names(&base.endpoints);
    let ov_ep_rust = endpoint_rusts(&overlay.endpoints);
    let ov_ep_name = endpoint_names(&overlay.endpoints);
    proof {
        assert(ov_ep_rust@.map_values(|x: String| x@).len() == ov_ep_rust@.len());
        assert(ov_ep_name@.map_values(|x: String| x@).len() == ov_ep_name@.len());
    }
    match find_clash(&base_ep_rust, &ov_ep_rust, &base_ep_name, &ov_ep_name) {
        Some((i, true)) => {
            return Err(push_clash_message(overlay_path, "endpoint rust variant", overlay.endpoints[i].rust.as_str()));
        },
        Some((i, false)) => {
            return Err(push_clash_message(overlay_path, "endpoint name", overlay.endpoints[i].name.as_str()));
        },
        None => {},
    }
    let base_ty_rust = type_rusts(&base.types);
    let base_ty_name = type_names(&base.types);
    let ov_ty_rust = type_rusts(&overlay.types);
    let ov_ty_name = type_names(&overlay.types);
    proof {
        assert(ov_ty_rust@.map_values(|x: String| x@).len() == ov_ty_rust@.len());
        assert(ov_ty_name@.map_values(|x: String| x@).len() == ov_ty_name@.len());
    }
    match find_clash(&base_ty_rust, &ov_ty_rust, &base_ty_name, &ov_ty_name) {
        Some((i, true)) => {
            return Err(push_clash_message(overlay_path, "type rust variant", overlay.types[i].rust.as_str()));
        },
        Some((i, false)) => {
            return Err(push_clash_message(overlay_path, "type name", overlay.types[i].name.as_str()));
        },
        None => {},
    }
    let TelemetryConfig { endpoints: mut ov_eps, types: mut ov_types } = overlay;
    let ghost ov0 = ov_eps@;
    let ghost b0 = base.endpoints@;
    let mut rev: Vec<JsonEndpoint> = Vec::new();
    while ov_eps.len() > 0
        invariant
            ov_eps@.len() + rev@.len() == ov0.len(),
            ov_eps@ == ov0.take(ov_eps@.len() as int),
            forall|i: int| 0 <= i < rev@.len() ==> #[trigger] rev@[i] == overlay_endpoint(ov0[ov0.len() - 1 - i]),
        decreases ov_eps@.len(),
    {
        let ghost n = ov_eps@.len();
        let mut ep = ov_eps.pop().unwrap();
        proof {
            assert(ep == ov0[n - 1]);
            assert(ov_eps@ =~= ov0.take(n - 1));
        }
        ep.link_local_only = Some(true);
        rev.push(ep);
    }
    while rev.len() > 0
        invariant
            rev@.len() + base.endpoints@.len() == ov0.len() + b0.len(),
            base.endpoints@.len() >= b0.len(),
            forall|i: int| 0 <= i < rev@.len() ==> #[trigger] rev@[i] == overlay_endpoint(ov0[ov0.len() - 1 - i]),
            base.endpoints@.take(b0.len() as int) == b0,
            forall|i: int| b0.len() <= i < base.endpoints@.len() ==> #[trigger] base.endpoints@[i] == overlay_endpoint(ov0[i - b0.len()]),
            base.types == old(base).types,
        decreases rev@.len(),
    {
        let ep = rev.pop().unwrap();
        let ghost before = base.endpoints@;
        base.endpoints.push(ep);
        assert(base.endpoints@.take(b0.len() as int) =~= before.take(b0.len() as int));
    }
    assert(base.endpoints@ =~= b0 + ov0.map_values(|e: JsonEndpoint| overlay_endpoint(e)));
    let ghost t0 = base.types@;
    base.types.append(&mut ov_types);
    Ok(())
}

// ---------------------------------------------------------------------------
// Checks
// ---------------------------------------------------------------------------

/// A schema name character: an ASCII capital, a digit or `_`.
pub open spec fn caps_char(c: char) -> bool {
    ('A' <= c && c <= 'Z') || ('0' <= c && c <= '9') || c == '_'
}

/// The error for a schema name that is empty or not all capitals, if any.
pub open spec fn spec_caps_error(kind: Seq<char>, s: Seq<char>) -> Option<Seq<char>> {
    if s.len() == 0 {
        Some(kind + ".name is empty"@)
    } else if exists|i: int| 0 <= i < s.len() && !caps_char(s[i]) {
        Some(kind + ".name must be ALL CAPS/underscore (e.g. \"RADIO\", \"GPS_DATA\"); got "@ + quoted_chars(s))
    } else {
        None
    }
}

fn all_caps(s: &str) -> (r: bool)
    ensures
        r == forall|i: int| 0 <= i < s@.len() ==> caps_char(s@[i]),
{
    let mut chars: Vec<char> = Vec::new();
    push_str(&mut chars, s);
    let mut i: usize = 0;
    while i < chars.len()
        invariant
            i <= chars@.len(),
            chars@ == s@,
            forall|j: int| 0 <= j < i ==> caps_char(chars@[j]),
        decreases chars@.len() - i,
    {
        let c = chars[i];
        if !(('A' <= c && c <= 'Z') || ('0' <= c && c <= '9') || c == '_') {
            return false;
        }
        i = i + 1;
    }
    true
}

/// Check that a schema name is non-empty and made of ASCII capitals,
/// digits and underscores.
pub fn ensure_caps_name(kind: &str, s: &str) -> (r: Result<(), String>)
    ensures
        match spec_caps_error(kind@, s@) {
            Some(msg) => r matches Err(m) && m@ == msg,
            None => r is Ok,
        },
{
    if s.is_empty() {
        let mut out: Vec<char> = Vec::new();
        push_str(&mut out, kind);
        push_str(&mut out, ".name is empty");
        return Err(chars_to_string(out));
    }
    if !all_caps(s) {
        let mut out: Vec<char> = Vec::new();
        push_str(&mut out, kind);
        push_str(&mut out, ".name must be ALL CAPS/underscore (e.g. \"RADIO\", \"GPS_DATA\"); got ");
        push_quoted(&mut out, s);
        return Err(chars_to_string(out));
    }
    Ok(())
}

/// Whether an endpoint entry is the built-in time sync endpoint.
pub fn is_timesync_endpoint(ep: &JsonEndpoint) -> (r: bool)
    ensures
        r == (ep.rust@ == "TimeSync"@ || ep.name@ == "TIME_SYNC"@),
{
    str_eq(ep.rust.as_str(), "TimeSync") || str_eq(ep.name.as_str(), "TIME_SYNC")
}

/// Whether an endpoint entry is the built-in discovery endpoint.
pub fn is_discovery_endpoint(ep: &JsonEndpoint) -> (r: bool)
    ensures
        r == (ep.rust@ == "Discovery"@ || ep.name@ == "DISCOVERY"@),
{
    str_eq(ep.rust.as_str(), "Discovery") || str_eq(ep.name.as_str(), "DISCOVERY")
}

/// Whether a type entry is a built-in time sync type.
pub fn is_timesync_type(ty: &JsonType) -> (r: bool)
    ensures
        r == (ty.rust@ == "TimeSyncAnnounce"@ || ty.rust@ == "TimeSyncRequest"@ || ty.rust@ == "TimeSyncResponse"@
            || ty.name@ == "TIME_SYNC_ANNOUNCE"@ || ty.name@ == "TIME_SYNC_REQUEST"@ || ty.name@ == "TIME_SYNC_RESPONSE"@),
{
    str_eq(ty.rust.as_str(), "TimeSyncAnnounce") || str_eq(ty.rust.as_str(), "TimeSyncRequest")
        || str_eq(ty.rust.as_str(), "TimeSyncResponse") || str_eq(ty.name.as_str(), "TIME_SYNC_ANNOUNCE")
        || str_eq(ty.name.as_str(), "TIME_SYNC_REQUEST") || str_eq(ty.name.as_str(), "TIME_SYNC_RESPONSE")
}

/// Whether a type entry is a built-in discovery type.
pub fn is_discovery_type(ty: &JsonType) -> (r: bool)
    ensures
        r == (ty.rust@ == "DiscoveryAnnounce"@ || ty.name@ == "DISCOVERY_ANNOUNCE"@
            || ty.name@ == "DISCOVERY_TIMESYNC_SOURCES"@),
{
    str_eq(ty.rust.as_str(), "DiscoveryAnnounce") || str_eq(ty.name.as_str(), "DISCOVERY_ANNOUNCE")
        || str_eq(ty.name.as_str(), "DISCOVERY_TIMESYNC_SOURCES")
}

/// `mode` equals the lower-case ASCII word `target` once its ASCII capitals
/// are lowered.
pub open spec fn eq_lowered(mode: Seq<char>, target: Seq<char>) -> bool {
    &&& mode.len() == target.len()
    &&& forall|i: int| 0 <= i < mode.len() ==> (#[trigger] mode[i] == target[i] || ('A' <= mode[i] && mode[i] <= 'Z'
        && mode[i] as u32 + 32 == target[i] as u32))
}

fn eq_lowered_exec(mode: &Vec<char>, target: &str) -> (r: bool)
    ensures
        r == eq_lowered(mode@, target@),
{
    let mut t: Vec<char> = Vec::new();
    push_str(&mut t, target);
    if mode.len() != t.len() {
        return false;
    }
    let mut i: usize = 0;
    while i < mode.len()
        invariant
            i <= mode@.len(),
            mode@.len() == t@.len(),
            t@ == target@,
            forall|j: int| 0 <= j < i ==> (#[trigger] mode@[j] == t@[j] || ('A' <= mode@[j] && mode@[j] <= 'Z'
                && mode@[j] as u32 + 32 == t@[j] as u32)),
        decreases mode@.len() - i,
    {
        let c = mode[i];
        let d = t[i];
        if !(c == d || ('A' <= c && c <= 'Z' && (c as u32) + 32 == d as u32)) {
            return false;
        }
        i = i + 1;
    }
    true
}

/// The reliable mode named by a schema entry (matched without regard to
/// ASCII case: `none`, `ordered` or `unordered`).
pub open spec fn spec_reliable_mode_named(mode: Seq<char>) -> Result<ReliableMode, Seq<char>> {
    if eq_lowered(mode, "none"@) {
        Ok(ReliableMode::Disabled)
    } else if eq_lowered(mode, "ordered"@) {
        Ok(ReliableMode::Ordered)
    } else if eq_lowered(mode, "unordered"@) {
        Ok(ReliableMode::Unordered)
    } else {
        Err("invalid reliable_mode: "@ + quoted_chars(mode) + " (expected \"None\", \"Ordered\", or \"Unordered\")"@)
    }
}

/// Parse the reliable mode name of a schema entry.
pub fn reliable_mode_from_name(mode: &str) -> (r: Result<ReliableMode, String>)
    ensures
        match spec_reliable_mode_named(mode@) {
            Ok(m) => r == Ok::<ReliableMode, String>(m),
            Err(msg) => r matches Err(e) && e@ == msg,
        },
{
    let mut l: Vec<char> = Vec::new();
    push_str(&mut l, mode);
    if eq_lowered_exec(&l, "none") {
        Ok(ReliableMode::Disabled)
    } else if eq_lowered_exec(&l, "ordered") {
        Ok(ReliableMode::Ordered)
    } else if eq_lowered_exec(&l, "unordered") {
        Ok(ReliableMode::Unordered)
    } else {
        let mut out: Vec<char> = Vec::new();
        push_str(&mut out, "invalid reliable_mode: ");
        push_quoted(&mut out, mode);
        push_str(&mut out, " (expected \"None\", \"Ordered\", or \"Unordered\")");
        assert(out@ =~= "invalid reliable_mode: "@ + quoted_chars(mode@) + " (expected \"None\", \"Ordered\", or \"Unordered\")"@);
        Err(chars_to_string(out))
    }
}

/// Whether a type entry redefines a built-in type: the error type, a time
/// sync type or a discovery type.
pub open spec fn spec_builtin_type_error(ty: JsonType) -> Option<Seq<char>> {
    if ty.rust@ == "TelemetryError"@ || ty.name@ == "TELEMETRY_ERROR"@ {
        Some("telemetry_config.json: TelemetryError is built-in and must not be defined in the schema"@)
    } else if ty.rust@ == "TimeSyncAnnounce"@ || ty.rust@ == "TimeSyncRequest"@ || ty.rust@ == "TimeSyncResponse"@
        || ty.name@ == "TIME_SYNC_ANNOUNCE"@ || ty.name@ == "TIME_SYNC_REQUEST"@ || ty.name@ == "TIME_SYNC_RESPONSE"@ {
        Some("telemetry_config.json: TimeSync types are built-in and must not be defined in the schema"@)
    } else if ty.rust@ == "DiscoveryAnnounce"@ || ty.name@ == "DISCOVERY_ANNOUNCE"@ || ty.name@ == "DISCOVERY_TIMESYNC_SOURCES"@ {
        Some("telemetry_config.json: Discovery types are built-in and must not be defined in the schema"@)
    } else {
        None
    }
}

/// Whether an endpoint entry redefines a built-in endpoint.
pub open spec fn spec_builtin_endpoint_error(ep: JsonEndpoint) -> Option<Seq<char>> {
    if ep.rust@ == "TelemetryError"@ || ep.name@ == "TELEMETRY_ERROR"@ {
        Some("telemetry_config.json: TelemetryError endpoint is built-in and must not be defined in the schema"@)
    } else if ep.rust@ == "TimeSync"@ || ep.name@ == "TIME_SYNC"@ {
        Some("telemetry_config.json: TimeSync endpoint is built-in and must not be defined in the schema"@)
    } else if ep.rust@ == "Discovery"@ || ep.name@ == "DISCOVERY"@ {
        Some("telemetry_config.json: Discovery endpoint is built-in and must not be defined in the schema"@)
    } else {
        None
    }
}

/// First error among the types from `i` on.
pub open spec fn first_type_error(types: Seq<JsonType>, i: nat) -> Option<Seq<char>>
    decreases types.len() - i,
{
    if i >= types.len() {
        None
    } else {
        match spec_builtin_type_error(types[i as int]) {
            Some(m) => Some(m),
            None => first_type_error(types, i + 1),
        }
    }
}

/// First error among the endpoints from `i` on: a built-in endpoint.
pub open spec fn first_endpoint_error(eps: Seq<JsonEndpoint>, i: nat) -> Option<Seq<char>>
    decreases eps.len() - i,
{
    if i >= eps.len() {
        None
    } else {
        match spec_builtin_endpoint_error(eps[i as int]) {
            Some(m) => Some(m),
            None => first_endpoint_error(eps, i + 1),
        }
    }
}

/// First error among the endpoint names from `i` on.
pub open spec fn first_name_error(eps: Seq<JsonEndpoint>, i: nat) -> Option<Seq<char>>
    decreases eps.len() - i,
{
    if i >= eps.len() {
        None
    } else {
        match spec_caps_error("endpoint"@, eps[i as int].name@) {
            Some(m) => Some(m),
            None => first_name_error(eps, i + 1),
        }
    }
}

/// The first error of a schema: a redefined built-in type, then a
/// redefined built-in endpoint, then an endpoint name that is not all
/// capitals.
pub open spec fn spec_schema_error(types: Seq<JsonType>, eps: Seq<JsonEndpoint>) -> Option<Seq<char>> {
    match first_type_error(types, 0) {
        Some(m) => Some(m),
        None => match first_endpoint_error(eps, 0) {
            Some(m) => Some(m),
            None => first_name_error(eps, 0),
        },
    }
}

fn builtin_type_error(ty: &JsonType) -> (r: Option<String>)
    ensures
        match spec_builtin_type_error(*ty) {
            Some(m) => r matches Some(s) && s@ == m,
            None => r is None,
        },
{
    if str_eq(ty.rust.as_str(), "TelemetryError") || str_eq(ty.name.as_str(), "TELEMETRY_ERROR") {
        let mut out: Vec<char> = Vec::new();
        push_str(&mut out, "telemetry_config.json: TelemetryError is built-in and must not be defined in the schema");
        return Some(chars_to_string(out));
    }
    if is_timesync_type(ty) {
        let mut out: Vec<char> = Vec::new();
        push_str(&mut out, "telemetry_config.json: TimeSync types are built-in and must not be defined in the schema");
        return Some(chars_to_string(out));
    }
    if is_discovery_type(ty) {
        let mut out: Vec<char> = Vec::new();
        push_str(&mut out, "telemetry_config.json: Discovery types are built-in and must not be defined in the schema");
        return Some(chars_to_string(out));
    }
    None
}

fn builtin_endpoint_error(ep: &JsonEndpoint) -> (r: Option<String>)
    ensures
        match spec_builtin_endpoint_error(*ep) {
            Some(m) => r matches Some(s) && s@ == m,
            None => r is None,
        },
{
    if str_eq(ep.rust.as_str(), "TelemetryError") || str_eq(ep.name.as_str(), "TELEMETRY_ERROR") {
        let mut out: Vec<char> = Vec::new();
        push_str(&mut out, "telemetry_config.json: TelemetryError endpoint is built-in and must not be defined in the schema");
        return Some(chars_to_string(out));
    }
    if is_timesync_endpoint(ep) {
        let mut out: Vec<char> = Vec::new();
        push_str(&mut out, "telemetry_config.json: TimeSync endpoint is built-in and must not be defined in the schema");
        return Some(chars_to_string(out));
    }
    if is_discovery_endpoint(ep) {
        let mut out: Vec<char> = Vec::new();
        push_str(&mut out, "telemetry_config.json: Discovery endpoint is built-in and must not be defined in the schema");
        return Some(chars_to_string(out));
    }
    None
}

/// Check a schema before code is generated from it: no entry may redefine a
/// built-in type or endpoint, and endpoint names must be all capitals.
pub fn check_schema(cfg: &TelemetryConfig) -> (r: Result<(), String>)
    ensures
        match spec_schema_error(cfg.types@, cfg.endpoints@) {
            Some(m) => r matches Err(e) && e@ == m,
            None => r is Ok,
        },
{
    let mut i: usize = 0;
    while i < cfg.types.len()
        invariant
            i <= cfg.types@.len(),
            first_type_error(cfg.types@, 0) == first_type_error(cfg.types@, i as nat),
        decreases cfg.types@.len() - i,
    {
        match builtin_type_error(&cfg.types[i]) {
            Some(m) => {
                return Err(m);
            },
            None => {},
        }
        i = i + 1;
    }
    let mut k: usize = 0;
    while k < cfg.endpoints.len()
        invariant
            k <= cfg.endpoints@.len(),
            first_type_error(cfg.types@, 0) is None,
            first_endpoint_error(cfg.endpoints@, 0) == first_endpoint_error(cfg.endpoints@, k as nat),
        decreases cfg.endpoints@.len() - k,
    {
        match builtin_endpoint_error(&cfg.endpoints[k]) {
            Some(m) => {
                return Err(m);
            },
            None => {},
        }
        k = k + 1;
    }
    let mut j: usize = 0;
    while j < cfg.endpoints.len()
        invariant
            j <= cfg.endpoints@.len(),
            first_type_error(cfg.types@, 0) is None,
            first_endpoint_error(cfg.endpoints@, 0) is None,
            first_name_error(cfg.endpoints@, 0) == first_name_error(cfg.endpoints@, j as nat),
        decreases cfg.endpoints@.len() - j,
    {
        ensure_caps_name("endpoint", cfg.endpoints[j].name.as_str())?;
        j = j + 1;
    }
    Ok(())
}

} // verus!
