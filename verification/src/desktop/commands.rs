//! What the window shows of the configuration and of the root, and how it changes them.

use vstd::prelude::*;
use vstd::string::*;
use vstd::utf8::char_u32_cast;

use crate::appconfig::AppConfig;
use crate::cert::trust;
use crate::config::KIRO_MODEL_SLOTS;
use crate::mapping::{distinct, entry_seq, ModelMap};
use crate::platform::Platform;
use crate::provider::ProviderConfig;
use crate::text::{chars_of, contains, occurs_at, same, starts_with, trim, trimmed};

verus! {

// ── Shapes ───────────────────────────────────────────────────────────────────

#[derive(Debug)]
pub struct ModelEntry {
    pub kiro: String,
    pub provider: String,
}

/// One known model id of the IDE, so that the window can offer them without a second copy of the
/// list.
#[derive(Debug)]
pub struct ModelSlot {
    pub id: String,
    pub name: String,
}

#[derive(Debug)]
pub struct ConfigView {
    pub base_url: String,
    /// The key itself is never sent to the window; only whether one is stored.
    pub api_key_set: bool,
    pub models: Vec<ModelEntry>,
    pub default_model: Option<String>,
    pub slots: Vec<ModelSlot>,
    pub config_path: String,
}

#[derive(Debug)]
pub struct CaStatus {
    pub initialized: bool,
    pub fingerprint: Option<String>,
    pub trusted: bool,
    pub cert_path: String,
}

/// The rows that a list holds, by id and provider model.
pub open spec fn row_seq(rows: Seq<ModelEntry>) -> Seq<(Seq<char>, Seq<char>)> {
    rows.map_values(|r: ModelEntry| (r.kiro@, r.provider@))
}

/// The slots that a list holds, by id and name.
pub open spec fn slot_seq(slots: Seq<ModelSlot>) -> Seq<(Seq<char>, Seq<char>)> {
    slots.map_values(|s: ModelSlot| (s.id@, s.name@))
}

/// The slots of the IDE.
pub open spec fn known_slots() -> Seq<(Seq<char>, Seq<char>)> {
    KIRO_MODEL_SLOTS@.map_values(|s: (&str, &str)| (s.0@, s.1@))
}

// ── Order ────────────────────────────────────────────────────────────────────

/// A text comes before another, or is the same: character by character, by their code points.
pub open spec fn text_le(a: Seq<char>, b: Seq<char>) -> bool
    decreases a.len(),
{
    if a.len() == 0 {
        true
    } else if b.len() == 0 {
        false
    } else if a[0] == b[0] {
        text_le(a.skip(1), b.skip(1))
    } else {
        (a[0] as u32) < (b[0] as u32)
    }
}

/// Rows in the order of their ids.
pub open spec fn in_order(rows: Seq<(Seq<char>, Seq<char>)>) -> bool {
    forall|i: int, j: int|
        0 <= i < j < rows.len() ==> text_le((#[trigger] rows[i]).0, (#[trigger] rows[j]).0)
}

/// Of two texts one comes before the other.
proof fn lemma_le_total(a: Seq<char>, b: Seq<char>)
    ensures
        text_le(a, b) || text_le(b, a),
    decreases a.len(),
{
    if a.len() > 0 && b.len() > 0 {
        if a[0] == b[0] {
            lemma_le_total(a.skip(1), b.skip(1));
        } else if a[0] as u32 == b[0] as u32 {
            char_u32_cast(a[0], a[0] as u32);
            char_u32_cast(b[0], b[0] as u32);
        }
    }
}

/// What comes before what comes before a text comes before it.
proof fn lemma_le_transitive(a: Seq<char>, b: Seq<char>, c: Seq<char>)
    requires
        text_le(a, b),
        text_le(b, c),
    ensures
        text_le(a, c),
    decreases a.len(),
{
    if a.len() > 0 && b.len() > 0 && c.len() > 0 && a[0] == b[0] && b[0] == c[0] {
        lemma_le_transitive(a.skip(1), b.skip(1), c.skip(1));
    }
}

/// Whether a text comes before another, or is the same.
fn comes_before(a: &str, b: &str) -> (r: bool)
    ensures
        r == text_le(a@, b@),
{
    let x = chars_of(a);
    let y = chars_of(b);
    let mut i: usize = 0;
    assert(x@.skip(0) =~= x@);
    assert(y@.skip(0) =~= y@);
    while i < x.len() && i < y.len() && x[i] == y[i]
        invariant
            i <= x@.len(),
            i <= y@.len(),
            text_le(x@, y@) == text_le(x@.skip(i as int), y@.skip(i as int)),
        decreases x@.len() - i,
    {
        assert(x@.skip(i as int).skip(1) =~= x@.skip(i + 1));
        assert(y@.skip(i as int).skip(1) =~= y@.skip(i + 1));
        i += 1;
    }
    if i == x.len() {
        true
    } else if i == y.len() {
        false
    } else {
        (x[i] as u32) < (y[i] as u32)
    }
}

/// Put a row into rows that are in order, behind all that come before it.
fn insert_row(rows: &mut Vec<ModelEntry>, row: ModelEntry)
    requires
        in_order(row_seq(old(rows)@)),
    ensures
        in_order(row_seq(final(rows)@)),
        row_seq(final(rows)@).to_multiset() == row_seq(old(rows)@).to_multiset().insert(
            (row.kiro@, row.provider@),
        ),
{
    let ghost before = row_seq(rows@);
    let ghost new = (row.kiro@, row.provider@);
    let mut i: usize = rows.len();
    while i > 0 && !comes_before(rows[i - 1].kiro.as_str(), row.kiro.as_str())
        invariant
            i <= rows@.len(),
            before == row_seq(rows@),
            new.0 == row.kiro@,
            forall|j: int| i <= j < before.len() ==> !text_le((#[trigger] before[j]).0, new.0),
        decreases i,
    {
        assert(before[i - 1].0 == rows@[i - 1].kiro@);
        i -= 1;
    }
    assert(i > 0 ==> before[i - 1].0 == rows@[i - 1].kiro@);
    rows.insert(i, row);
    let ghost after = row_seq(rows@);
    proof {
        assert(after =~= before.insert(i as int, new));
        assert(after.remove(i as int) =~= before);
        assert(after[i as int] == new);
        after.to_multiset_ensures();
        vstd::seq_lib::to_multiset_remove(after, i as int);
        assert(after.contains(new));
        assert(after.to_multiset() =~= before.to_multiset().insert(new));
        assert forall|a: int, b: int| 0 <= a < b < after.len() implies text_le(
            (#[trigger] after[a]).0,
            (#[trigger] after[b]).0,
        ) by {
            if b < i {
                assert(text_le(before[a].0, before[b].0));
            } else if b == i {
                assert(a <= i - 1);
                if a < i - 1 {
                    assert(text_le(before[a].0, before[i - 1].0));
                    lemma_le_transitive(before[a].0, before[i - 1].0, new.0);
                }
            } else if a < i {
                assert(text_le(before[a].0, before[b - 1].0));
            } else if a == i {
                lemma_le_total(before[b - 1].0, new.0);
            } else {
                assert(text_le(before[a - 1].0, before[b - 1].0));
            }
        }
    }
}

/// The rows of a model map, in the order of their ids.
fn sorted_rows(models: &Vec<(String, String)>) -> (r: Vec<ModelEntry>)
    ensures
        in_order(row_seq(r@)),
        row_seq(r@).to_multiset() == entry_seq(models@).to_multiset(),
{
    let mut r: Vec<ModelEntry> = Vec::new();
    let ghost all = entry_seq(models@);
    let mut i: usize = 0;
    assert(row_seq(r@) =~= all.take(0));
    while i < models.len()
        invariant
            i <= models@.len(),
            all == entry_seq(models@),
            in_order(row_seq(r@)),
            row_seq(r@).to_multiset() == all.take(i as int).to_multiset(),
        decreases models@.len() - i,
    {
        let row = ModelEntry { kiro: models[i].0.clone(), provider: models[i].1.clone() };
        assert(all[i as int] == (row.kiro@, row.provider@));
        insert_row(&mut r, row);
        proof {
            assert(all.take(i + 1) =~= all.take(i as int).push(all[i as int]));
            vstd::seq_lib::to_multiset_build(all.take(i as int), all[i as int]);
        }
        i += 1;
    }
    assert(all.take(i as int) =~= all);
    r
}

// ── Configuration ────────────────────────────────────────────────────────────

/// What the window shows of a configuration: everything but the key, the mappings in the order of
/// their ids.
pub open spec fn shows(v: ConfigView, config: AppConfig, config_path: Seq<char>) -> bool {
    &&& v.base_url@ == config.provider.base_url@
    &&& v.api_key_set == (config.provider.api_key@.len() > 0)
    &&& in_order(row_seq(v.models@))
    &&& row_seq(v.models@).to_multiset() == entry_seq(config.mappings.models@).to_multiset()
    &&& v.default_model == config.mappings.default
    &&& slot_seq(v.slots@) == known_slots()
    &&& v.config_path@ == config_path
}

/// The text that an option holds, copied.
fn copied(o: &Option<String>) -> (r: Option<String>)
    ensures
        r == *o,
{
    match o {
        Some(s) => Some(s.clone()),
        None => None,
    }
}

/// What the window shows of a configuration that is kept at this path.
pub fn view(config: &AppConfig, config_path: &str) -> (r: ConfigView)
    ensures
        shows(r, *config, config_path@),
{
    let mut slots: Vec<ModelSlot> = Vec::new();
    let mut i: usize = 0;
    while i < KIRO_MODEL_SLOTS.len()
        invariant
            i <= KIRO_MODEL_SLOTS@.len(),
            slots@.len() == i,
            forall|j: int|
                0 <= j < i ==> (#[trigger] slots@[j]).id@ == KIRO_MODEL_SLOTS@[j].0@
                    && slots@[j].name@ == KIRO_MODEL_SLOTS@[j].1@,
        decreases KIRO_MODEL_SLOTS@.len() - i,
    {
        let slot = KIRO_MODEL_SLOTS[i];
        slots.push(ModelSlot { id: slot.0.to_string(), name: slot.1.to_string() });
        i += 1;
    }
    assert(slot_seq(slots@) =~= known_slots());
    ConfigView {
        base_url: config.provider.base_url.clone(),
        api_key_set: !config.provider.api_key.as_str().is_empty(),
        models: sorted_rows(&config.mappings.models),
        default_model: copied(&config.mappings.default),
        slots,
        config_path: config_path.to_string(),
    }
}

/// Why the provider cannot be saved, if it cannot: the address must be usable, and there must be a
/// key, a stored one or a new one.
pub open spec fn provider_flaw(url: Seq<char>, key: Seq<char>) -> Option<Seq<char>> {
    if url.len() == 0 {
        Some("the provider base URL cannot be empty"@)
    } else if !"http://"@.is_prefix_of(url) && !"https://"@.is_prefix_of(url) {
        Some("the provider base URL must start with http:// or https://"@)
    } else if key.len() == 0 {
        Some("no API key stored yet — enter one to configure the provider"@)
    } else {
        None
    }
}

/// The key after a change: the new one where it is more than white space, else the stored one.
pub open spec fn next_key(stored: Seq<char>, new: Option<String>) -> Seq<char> {
    match new {
        Some(k) => if trim(k@).len() > 0 {
            trim(k@)
        } else {
            stored
        },
        None => stored,
    }
}

/// The provider after a change of its address and, where one is given, of its key. An empty or
/// absent key keeps the stored one, so that the window can change the address without the key ever
/// passing through it.
pub fn set_provider_config(stored: &ProviderConfig, base_url: &str, api_key: Option<String>) -> (r:
    Result<ProviderConfig, String>)
    ensures
        match r {
            Ok(provider) => {
                &&& provider_flaw(trim(base_url@), next_key(stored.api_key@, api_key)) is None
                &&& provider.base_url@ == trim(base_url@)
                &&& provider.api_key@ == next_key(stored.api_key@, api_key)
            },
            Err(why) => provider_flaw(trim(base_url@), next_key(stored.api_key@, api_key)) == Some(
                why@,
            ),
        },
{
    let url = trimmed(base_url);
    if url.as_str().is_empty() {
        return Err("the provider base URL cannot be empty".to_string());
    }
    if !starts_with(url.as_str(), "http://") && !starts_with(url.as_str(), "https://") {
        return Err("the provider base URL must start with http:// or https://".to_string());
    }
    let mut key = stored.api_key.clone();
    match &api_key {
        Some(k) => {
            let new = trimmed(k.as_str());
            if !new.as_str().is_empty() {
                key = new;
            }
        },
        None => {},
    }
    if key.as_str().is_empty() {
        return Err("no API key stored yet — enter one to configure the provider".to_string());
    }
    Ok(ProviderConfig { base_url: url, api_key: key })
}

/// A row with the white space around its fields dropped.
pub open spec fn trimmed_row(row: (Seq<char>, Seq<char>)) -> (Seq<char>, Seq<char>) {
    (trim(row.0), trim(row.1))
}

/// An earlier row has the same id.
pub open spec fn repeats(rows: Seq<(Seq<char>, Seq<char>)>, i: int) -> bool {
    exists|j: int| 0 <= j < i && trim((#[trigger] rows[j]).0) == trim(rows[i].0)
}

/// Why the rows, from the `i`-th on, cannot be saved, if they cannot: every row needs both fields,
/// and no id may come twice.
pub open spec fn rows_flaw(rows: Seq<(Seq<char>, Seq<char>)>, i: int) -> Option<Seq<char>>
    decreases rows.len() - i,
{
    if i < 0 || i >= rows.len() {
        None
    } else {
        let (kiro, provider) = trimmed_row(rows[i]);
        if kiro.len() == 0 || provider.len() == 0 {
            Some(
                "each row needs both a Kiro model id and a provider model (got `"@ + kiro
                    + "` → `"@ + provider + "`)"@,
            )
        } else if repeats(rows, i) {
            Some("duplicate Kiro model id `"@ + kiro + "`"@)
        } else {
            rows_flaw(rows, i + 1)
        }
    }
}

/// Whether an id is among the entries.
fn has_id(entries: &Vec<(String, String)>, id: &str) -> (b: bool)
    ensures
        b == exists|j: int| 0 <= j < entries@.len() && (#[trigger] entry_seq(entries@)[j]).0 == id@,
{
    let mut i: usize = 0;
    while i < entries.len()
        invariant
            i <= entries@.len(),
            forall|j: int| 0 <= j < i ==> (#[trigger] entry_seq(entries@)[j]).0 != id@,
        decreases entries@.len() - i,
    {
        assert(entry_seq(entries@)[i as int].0 == entries@[i as int].0@);
        if same(entries[i].0.as_str(), id) {
            return true;
        }
        i += 1;
    }
    false
}

/// The whole model map, replaced by the rows that the window submitted. The fallback is untouched;
/// a row that was not resubmitted is gone, which is how the window removes a mapping. A row with an
/// empty field, and one whose id was there before, is refused, and nothing is replaced then.
pub fn set_model_mappings(stored: &ModelMap, rows: &[ModelEntry]) -> (r: Result<ModelMap, String>)
    ensures
        match r {
            Ok(map) => {
                &&& rows_flaw(row_seq(rows@), 0) is None
                &&& entry_seq(map.models@) == row_seq(rows@).map_values(
                    |e: (Seq<char>, Seq<char>)| trimmed_row(e),
                )
                &&& map.default == stored.default
                &&& map.wf()
            },
            Err(why) => rows_flaw(row_seq(rows@), 0) == Some(why@),
        },
{
    let ghost all = row_seq(rows@);
    let ghost want = all.map_values(|e: (Seq<char>, Seq<char>)| trimmed_row(e));
    let mut models: Vec<(String, String)> = Vec::new();
    let mut i: usize = 0;
    assert(entry_seq(models@) =~= want.take(0));
    while i < rows.len()
        invariant
            i <= rows@.len(),
            all == row_seq(rows@),
            want == all.map_values(|e: (Seq<char>, Seq<char>)| trimmed_row(e)),
            entry_seq(models@) == want.take(i as int),
            models@.len() == i,
            distinct(entry_seq(models@)),
            rows_flaw(all, 0) == rows_flaw(all, i as int),
        decreases rows@.len() - i,
    {
        let kiro = trimmed(rows[i].kiro.as_str());
        let provider = trimmed(rows[i].provider.as_str());
        assert(all[i as int] == (rows@[i as int].kiro@, rows@[i as int].provider@));
        if kiro.as_str().is_empty() || provider.as_str().is_empty() {
            let mut why =
                "each row needs both a Kiro model id and a provider model (got `".to_string();
            why.push_str(kiro.as_str());
            why.push_str("` → `");
            why.push_str(provider.as_str());
            why.push_str("`)");
            return Err(why);
        }
        let known = has_id(&models, kiro.as_str());
        let ghost have = entry_seq(models@);
        proof {
            if known {
                let j = choose|j: int| 0 <= j < models@.len() && (#[trigger] have[j]).0 == kiro@;
                assert(have[j] == want[j]);
                assert(trim(all[j].0) == trim(all[i as int].0));
                assert(repeats(all, i as int));
            } else {
                assert(!repeats(all, i as int)) by {
                    if repeats(all, i as int) {
                        let j = choose|j: int|
                            0 <= j < i && trim((#[trigger] all[j]).0) == trim(all[i as int].0);
                        assert(have[j] == want[j]);
                        assert(have[j].0 == kiro@);
                    }
                }
            }
        }
        if known {
            let mut why = "duplicate Kiro model id `".to_string();
            why.push_str(kiro.as_str());
            why.push_str("`");
            return Err(why);
        }
        let ghost new = (kiro@, provider@);
        models.push((kiro, provider));
        i += 1;
        assert(entry_seq(models@) =~= have.push(new));
        assert(want.take(i as int) =~= want.take(i - 1).push(want[i - 1]));
        assert(distinct(entry_seq(models@))) by {
            let now = entry_seq(models@);
            assert forall|a: int, b: int| 0 <= a < b < now.len() implies (#[trigger] now[a]).0 != (
            #[trigger] now[b]).0 by {
                if b < have.len() {
                    assert(have[a].0 != have[b].0);
                } else {
                    assert(have[a].0 != new.0);
                }
            }
        }
    }
    assert(want.take(i as int) =~= want);
    Ok(ModelMap { models, default: copied(&stored.default) })
}

/// The fallback model: what was given without the white space around it, nothing where that is
/// empty.
pub fn set_default_model(provider_model: Option<String>) -> (r: Option<String>)
    ensures
        match (provider_model, r) {
            (Some(m), Some(d)) => d@ == trim(m@) && d@.len() > 0,
            (Some(m), None) => trim(m@).len() == 0,
            (None, Some(_)) => false,
            (None, None) => true,
        },
{
    match provider_model {
        Some(m) => {
            let d = trimmed(m.as_str());
            if d.as_str().is_empty() {
                None
            } else {
                Some(d)
            }
        },
        None => None,
    }
}

/// A configuration as it is printed: a key that is set is not shown.
pub fn redacted(config: &AppConfig) -> (r: AppConfig)
    ensures
        r.provider.base_url@ == config.provider.base_url@,
        r.provider.api_key@ == if config.provider.api_key@.len() > 0 {
            "***redacted***"@
        } else {
            config.provider.api_key@
        },
        entry_seq(r.mappings.models@) == entry_seq(config.mappings.models@),
        r.mappings.default == config.mappings.default,
{
    let mut models: Vec<(String, String)> = Vec::new();
    let mut i: usize = 0;
    while i < config.mappings.models.len()
        invariant
            i <= config.mappings.models@.len(),
            models@.len() == i,
            forall|j: int|
                0 <= j < i ==> (#[trigger] models@[j]).0@ == config.mappings.models@[j].0@
                    && models@[j].1@ == config.mappings.models@[j].1@,
        decreases config.mappings.models@.len() - i,
    {
        models.push(
            (config.mappings.models[i].0.clone(), config.mappings.models[i].1.clone()),
        );
        i += 1;
    }
    assert(entry_seq(models@) =~= entry_seq(config.mappings.models@));
    let api_key = if config.provider.api_key.as_str().is_empty() {
        config.provider.api_key.clone()
    } else {
        "***redacted***".to_string()
    };
    AppConfig {
        provider: ProviderConfig { base_url: config.provider.base_url.clone(), api_key },
        mappings: ModelMap { models, default: copied(&config.mappings.default) },
    }
}

// ── The root ─────────────────────────────────────────────────────────────────

/// What the window shows of the root: nothing but its place where there is none, since to report
/// the status must not make one. `root` is its fingerprint and whether it is trusted.
pub fn ca_view(cert_path: &str, root: Option<(String, bool)>) -> (r: CaStatus)
    ensures
        r.cert_path@ == cert_path@,
        match root {
            Some((fingerprint, trusted)) => r.initialized && r.fingerprint == Some(fingerprint)
                && r.trusted == trusted,
            None => !r.initialized && r.fingerprint is None && !r.trusted,
        },
{
    let cert_path = cert_path.to_string();
    match root {
        Some((fingerprint, trusted)) => CaStatus {
            initialized: true,
            fingerprint: Some(fingerprint),
            trusted,
            cert_path,
        },
        None => CaStatus { initialized: false, fingerprint: None, trusted: false, cert_path },
    }
}

/// What to tell a user whose machine still does not trust the root.
pub fn untrusted_message(platform: Platform, cert_path: &str) -> (r: String)
    ensures
        r@ == "macOS still does not trust the root CA. Run this in a terminal, then try again:\n"@
            + if platform == Platform::MacOs {
            "security add-trusted-cert -r trustRoot \""@ + cert_path@ + "\""@
        } else {
            "install "@ + cert_path@ + " into the system trust store manually"@
        },
{
    let mut r =
        "macOS still does not trust the root CA. Run this in a terminal, then try again:\n".to_string();
    r.push_str(trust::manual_trust_command(platform, cert_path).as_str());
    r
}

// ── Laws ─────────────────────────────────────────────────────────────────────

/// The window never gets to see the key: two configurations that differ in nothing but the key, set
/// in both, look alike.
pub proof fn law_the_key_is_not_shown(
    a: &AppConfig,
    b: &AppConfig,
    path: &str,
    x: ConfigView,
    y: ConfigView,
)
    requires
        call_ensures(view, (a, path), x),
        call_ensures(view, (b, path), y),
        a.provider.base_url@ == b.provider.base_url@,
        a.mappings == b.mappings,
        a.provider.api_key@.len() > 0,
        b.provider.api_key@.len() > 0,
    ensures
        x.base_url@ == y.base_url@,
        x.api_key_set && y.api_key_set,
        row_seq(x.models@).to_multiset() == row_seq(y.models@).to_multiset(),
        x.default_model == y.default_model,
        slot_seq(x.slots@) == slot_seq(y.slots@),
        x.config_path@ == y.config_path@,
{
}

/// What the window shows is what is configured: every mapping once, in alphabetical order of the
/// ids, the fallback, and whether a key is set.
pub proof fn law_the_window_shows_what_is_configured(config: &AppConfig, path: &str, v: ConfigView)
    requires
        call_ensures(view, (config, path), v),
    ensures
        v.base_url@ == config.provider.base_url@,
        v.api_key_set <==> config.provider.api_key@.len() > 0,
        v.default_model == config.mappings.default,
        v.config_path@ == path@,
        v.models@.len() == config.mappings.models@.len(),
        forall|key: Seq<char>, model: Seq<char>|
            row_seq(v.models@).to_multiset().count((key, model)) == #[trigger] entry_seq(
                config.mappings.models@,
            ).to_multiset().count((key, model)),
        forall|i: int, j: int|
            0 <= i < j < v.models@.len() ==> text_le(
                (#[trigger] v.models@[i]).kiro@,
                (#[trigger] v.models@[j]).kiro@,
            ),
{
    let a = row_seq(v.models@);
    let b = entry_seq(config.mappings.models@);
    a.to_multiset_ensures();
    b.to_multiset_ensures();
    assert forall|i: int, j: int| 0 <= i < j < v.models@.len() implies text_le(
        (#[trigger] v.models@[i]).kiro@,
        (#[trigger] v.models@[j]).kiro@,
    ) by {
        assert(text_le(a[i].0, a[j].0));
    }
}

/// The order is alphabetical: what begins another text comes before it, and otherwise the first
/// character in which two texts differ decides, by its code point.
pub proof fn law_the_order_is_alphabetical(
    common: Seq<char>,
    x: char,
    a: Seq<char>,
    y: char,
    b: Seq<char>,
)
    requires
        x != y,
    ensures
        text_le(common, common + a),
        a.len() > 0 ==> !text_le(common + a, common),
        text_le(common + seq![x] + a, common + seq![y] + b) <==> (x as u32) < (y as u32),
    decreases common.len(),
{
    let s = common + seq![x] + a;
    let t = common + seq![y] + b;
    if common.len() > 0 {
        let rest = common.skip(1);
        law_the_order_is_alphabetical(rest, x, a, y, b);
        assert(s.skip(1) =~= rest + seq![x] + a);
        assert(t.skip(1) =~= rest + seq![y] + b);
        assert((common + a).skip(1) =~= rest + a);
    } else {
        assert(s[0] == x && t[0] == y);
    }
}

/// A provider is saved where its address is one of the web and there is a key, and then with just
/// that address; the stored key stays unless a new one comes.
pub proof fn law_saving_a_provider_keeps_what_is_not_replaced(
    stored: &ProviderConfig,
    base_url: &str,
    api_key: Option<String>,
    r: Result<ProviderConfig, String>,
)
    requires
        call_ensures(set_provider_config, (stored, base_url, api_key), r),
    ensures
        ({
            let url = trim(base_url@);
            let replaced = api_key is Some && trim(api_key->0@).len() > 0;
            let web = "http://"@.is_prefix_of(url) || "https://"@.is_prefix_of(url);
            &&& r is Ok <==> web && (replaced || stored.api_key@.len() > 0)
            &&& r is Ok ==> r->Ok_0.base_url@ == url && r->Ok_0.api_key@ == if replaced {
                trim(api_key->0@)
            } else {
                stored.api_key@
            }
            &&& url.len() == 0 ==> r is Err && r->Err_0@ == "the provider base URL cannot be empty"@
            &&& url.len() > 0 && !web ==> r is Err && r->Err_0@
                == "the provider base URL must start with http:// or https://"@
            &&& web && !replaced && stored.api_key@.len() == 0 ==> r is Err && r->Err_0@
                == "no API key stored yet — enter one to configure the provider"@
        }),
{
    reveal_strlit("http://");
    reveal_strlit("https://");
    let url = trim(base_url@);
    if url.len() == 0 {
        assert(!"http://"@.is_prefix_of(url));
        assert(!"https://"@.is_prefix_of(url));
    }
}

proof fn lemma_rows_flaw(rows: Seq<(Seq<char>, Seq<char>)>, from: int)
    requires
        0 <= from,
    ensures
        rows_flaw(rows, from) is None <==> forall|i: int|
            from <= i < rows.len() ==> trim((#[trigger] rows[i]).0).len() > 0 && trim(
                rows[i].1,
            ).len() > 0 && !repeats(rows, i),
    decreases rows.len() - from,
{
    if from < rows.len() {
        lemma_rows_flaw(rows, from + 1);
    }
}

/// Mappings are saved where every row names two models and no id comes twice, and then as they were
/// submitted: every id resolves to the model of its own row, no other id has one of its own, and the
/// fallback stays.
pub proof fn law_saved_mappings_resolve_as_submitted(
    stored: &ModelMap,
    rows: &[ModelEntry],
    r: Result<ModelMap, String>,
)
    requires
        call_ensures(set_model_mappings, (stored, rows), r),
    ensures
        r is Ok <==> (forall|i: int|
            0 <= i < rows@.len() ==> trim((#[trigger] rows@[i]).kiro@).len() > 0 && trim(
                rows@[i].provider@,
            ).len() > 0) && (forall|i: int, j: int|
            0 <= i < j < rows@.len() ==> trim((#[trigger] rows@[i]).kiro@) != trim(
                (#[trigger] rows@[j]).kiro@,
            )),
        r is Ok ==> {
            &&& r->Ok_0.default == stored.default
            &&& r->Ok_0.models@.len() == rows@.len()
            &&& forall|i: int|
                0 <= i < rows@.len() ==> (#[trigger] r->Ok_0.models@[i]).0@ == trim(rows@[i].kiro@)
                    && r->Ok_0.models@[i].1@ == trim(rows@[i].provider@)
            &&& forall|i: int|
                0 <= i < rows@.len() ==> r->Ok_0.target(trim((#[trigger] rows@[i]).kiro@)) == Some(
                    trim(rows@[i].provider@),
                )
        },
{
    let all = row_seq(rows@);
    lemma_rows_flaw(all, 0);
    if r is Ok {
        let map = r->Ok_0;
        let kept = entry_seq(map.models@);
        assert forall|i: int| 0 <= i < rows@.len() implies trim(
            (#[trigger] rows@[i]).kiro@,
        ).len() > 0 && trim(rows@[i].provider@).len() > 0 by {
            assert(all[i] == (rows@[i].kiro@, rows@[i].provider@));
        }
        assert forall|i: int, j: int| 0 <= i < j < rows@.len() implies trim(
            (#[trigger] rows@[i]).kiro@,
        ) != trim((#[trigger] rows@[j]).kiro@) by {
            assert(!repeats(all, j));
            assert(all[i].0 == rows@[i].kiro@);
            assert(all[j].0 == rows@[j].kiro@);
        }
        assert forall|i: int| 0 <= i < rows@.len() implies (#[trigger] map.models@[i]).0@ == trim(
            rows@[i].kiro@,
        ) && map.models@[i].1@ == trim(rows@[i].provider@) by {
            assert(kept[i] == trimmed_row(all[i]));
            assert(kept[i] == (map.models@[i].0@, map.models@[i].1@));
            assert(all[i] == (rows@[i].kiro@, rows@[i].provider@));
        }
        assert forall|i: int| 0 <= i < rows@.len() implies map.target(
            trim((#[trigger] rows@[i]).kiro@),
        ) == Some(trim(rows@[i].provider@)) by {
            assert(kept[i] == trimmed_row(all[i]));
            assert(kept[i] == (map.models@[i].0@, map.models@[i].1@));
            crate::mapping::law_exact_match_wins(map, i);
        }
    } else if (forall|i: int|
        0 <= i < rows@.len() ==> trim((#[trigger] rows@[i]).kiro@).len() > 0 && trim(
            rows@[i].provider@,
        ).len() > 0) && (forall|i: int, j: int|
        0 <= i < j < rows@.len() ==> trim((#[trigger] rows@[i]).kiro@) != trim(
            (#[trigger] rows@[j]).kiro@,
        )) {
        assert forall|i: int| 0 <= i < all.len() implies trim((#[trigger] all[i]).0).len() > 0
            && trim(all[i].1).len() > 0 && !repeats(all, i) by {
            assert(all[i] == (rows@[i].kiro@, rows@[i].provider@));
            if repeats(all, i) {
                let j = choose|j: int| 0 <= j < i && trim((#[trigger] all[j]).0) == trim(all[i].0);
                assert(all[j].0 == rows@[j].kiro@);
                assert(trim(rows@[j].kiro@) != trim(rows@[i].kiro@));
            }
        }
    }
}

/// A fallback is saved without the white space around it, and one that is nothing else is none.
pub proof fn law_a_blank_fallback_is_none(given: Option<String>, r: Option<String>)
    requires
        call_ensures(set_default_model, (given,), r),
    ensures
        r is Some <==> given is Some && !crate::text::blank(given->0@),
        r is Some ==> r->0@ == trim(given->0@),
{
    if let Some(m) = given {
        crate::text::law_only_white_space_trims_to_nothing(m@);
    }
}

/// A configuration is printed without its key, and otherwise as it is.
pub proof fn law_printed_configurations_hide_the_key(
    a: &AppConfig,
    b: &AppConfig,
    x: AppConfig,
    y: AppConfig,
)
    requires
        call_ensures(redacted, (a,), x),
        call_ensures(redacted, (b,), y),
        a.provider.api_key@.len() > 0,
        b.provider.api_key@.len() > 0,
    ensures
        x.provider.api_key@ == y.provider.api_key@,
        x.provider.api_key@ == "***redacted***"@,
        x.provider.base_url@ == a.provider.base_url@,
        x.mappings.default == a.mappings.default,
        entry_seq(x.mappings.models@) == entry_seq(a.mappings.models@),
{
}

/// What is shown of the root is its fingerprint and whether it is trusted, where there is one, and
/// its place in any case.
pub proof fn law_the_root_is_shown_as_it_is(cert_path: &str, root: Option<(String, bool)>, r: CaStatus)
    requires
        call_ensures(ca_view, (cert_path, root), r),
    ensures
        r.initialized <==> root is Some,
        r.cert_path@ == cert_path@,
        match root {
            Some((fingerprint, trusted)) => r.fingerprint == Some(fingerprint) && r.trusted
                == trusted,
            None => true,
        },
        root is None ==> r.fingerprint is None && !r.trusted,
{
}

/// A user whose system still does not trust the root is told where the certificate is.
pub proof fn law_distrust_names_the_certificate(platform: Platform, cert_path: &str, r: String)
    requires
        call_ensures(untrusted_message, (platform, cert_path), r),
    ensures
        contains(r@, cert_path@),
        platform == Platform::MacOs ==> contains(r@, "security add-trusted-cert -r trustRoot "@),
{
    let text = r@;
    let start = "macOS still does not trust the root CA. Run this in a terminal, then try again:\n"@;
    let front = if platform == Platform::MacOs {
        start + "security add-trusted-cert -r trustRoot \""@
    } else {
        start + "install "@
    };
    let end = (front.len() + cert_path@.len()) as int;
    assert(text.subrange(front.len() as int, end) =~= cert_path@);
    assert(occurs_at(text, cert_path@, front.len() as int));
    if platform == Platform::MacOs {
        let tool = "security add-trusted-cert -r trustRoot "@;
        reveal_strlit("security add-trusted-cert -r trustRoot ");
        reveal_strlit("security add-trusted-cert -r trustRoot \"");
        assert(text.subrange(start.len() as int, (start.len() + tool.len()) as int) =~= tool);
        assert(occurs_at(text, tool, start.len() as int));
    }
}

/// A key that is not there is not made up, neither in print nor in the window, and the window offers
/// every slot by its id and name.
pub proof fn law_no_key_is_made_up(
    config: &AppConfig,
    printed: AppConfig,
    path: &str,
    v: ConfigView,
    i: int,
)
    requires
        call_ensures(redacted, (config,), printed),
        call_ensures(view, (config, path), v),
        config.provider.api_key@.len() == 0,
    ensures
        printed.provider.api_key@.len() == 0,
        !v.api_key_set,
        v.slots@.len() == KIRO_MODEL_SLOTS@.len(),
        0 <= i < v.slots@.len() ==> v.slots@[i].id@ == KIRO_MODEL_SLOTS@[i].0@ && v.slots@[i].name@
            == KIRO_MODEL_SLOTS@[i].1@,
{
    assert(slot_seq(v.slots@).len() == v.slots@.len());
    if 0 <= i < v.slots@.len() {
        assert(slot_seq(v.slots@)[i] == (v.slots@[i].id@, v.slots@[i].name@));
    }
}

/// Of rows that cannot be saved the first is named: one that lacks a side with both of its sides, and
/// one whose id came before with its id.
pub proof fn law_the_first_bad_row_is_named(
    stored: &ModelMap,
    rows: &[ModelEntry],
    r: Result<ModelMap, String>,
    i: int,
)
    requires
        call_ensures(set_model_mappings, (stored, rows), r),
        0 <= i < rows@.len(),
        forall|j: int|
            0 <= j < i ==> trim((#[trigger] rows@[j]).kiro@).len() > 0 && trim(
                rows@[j].provider@,
            ).len() > 0,
        forall|j: int, k: int|
            0 <= j < k < i ==> trim((#[trigger] rows@[j]).kiro@) != trim(
                (#[trigger] rows@[k]).kiro@,
            ),
    ensures
        ({
            let kiro = trim(rows@[i].kiro@);
            let provider = trim(rows@[i].provider@);
            let lacks = kiro.len() == 0 || provider.len() == 0;
            &&& lacks ==> r is Err && contains(r->Err_0@, "`"@ + kiro + "` → `"@ + provider + "`"@)
            &&& !lacks && (exists|j: int|
                0 <= j < i && trim((#[trigger] rows@[j]).kiro@) == kiro) ==> r is Err && contains(
                r->Err_0@,
                "duplicate Kiro model id `"@ + kiro + "`"@,
            )
        }),
{
    let all = row_seq(rows@);
    assert forall|j: int| 0 <= j < i implies trim((#[trigger] all[j]).0).len() > 0 && trim(
        all[j].1,
    ).len() > 0 && !repeats(all, j) by {
        assert(all[j] == (rows@[j].kiro@, rows@[j].provider@));
        if repeats(all, j) {
            let k = choose|k: int| 0 <= k < j && trim((#[trigger] all[k]).0) == trim(all[j].0);
            assert(all[k].0 == rows@[k].kiro@);
            assert(trim(rows@[k].kiro@) != trim(rows@[j].kiro@));
        }
    }
    lemma_flaw_from(all, 0, i);
    let kiro = trim(rows@[i].kiro@);
    let provider = trim(rows@[i].provider@);
    assert(all[i] == (rows@[i].kiro@, rows@[i].provider@));
    let said = r->Err_0@;
    if kiro.len() == 0 || provider.len() == 0 {
        let front = "each row needs both a Kiro model id and a provider model (got "@;
        let core = "`"@ + kiro + "` → `"@ + provider + "`"@;
        reveal_strlit("each row needs both a Kiro model id and a provider model (got ");
        reveal_strlit("each row needs both a Kiro model id and a provider model (got `");
        reveal_strlit("`");
        reveal_strlit("`)");
        assert(said =~= front + core + seq![')']);
        assert(said.subrange(front.len() as int, (front.len() + core.len()) as int) =~= core);
        assert(occurs_at(said, core, front.len() as int));
    } else if exists|j: int| 0 <= j < i && trim((#[trigger] rows@[j]).kiro@) == kiro {
        let j = choose|j: int| 0 <= j < i && trim((#[trigger] rows@[j]).kiro@) == kiro;
        assert(all[j].0 == rows@[j].kiro@);
        assert(repeats(all, i));
        assert(said.subrange(0, said.len() as int) =~= said);
        assert(occurs_at(said, said, 0));
    }
}

proof fn lemma_flaw_from(rows: Seq<(Seq<char>, Seq<char>)>, from: int, i: int)
    requires
        0 <= from <= i < rows.len(),
        forall|j: int|
            from <= j < i ==> trim((#[trigger] rows[j]).0).len() > 0 && trim(rows[j].1).len() > 0
                && !repeats(rows, j),
    ensures
        rows_flaw(rows, from) == rows_flaw(rows, i),
    decreases i - from,
{
    if from < i {
        assert(trim(rows[from].0).len() > 0);
        lemma_flaw_from(rows, from + 1, i);
    }
}

} // verus!
