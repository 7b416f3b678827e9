//! Installed plugins on disk: the install receipt and the uninstall marker
//! kept in a plugin's root directory, which receipts make a usable plugin,
//! how a failed delete is retried, what the list of installed plugins shows,
//! and which roots an uninstall removes.
use vstd::prelude::*;
use crate::paths::{has_parent_component_exec, has_parent_component_on, is_absolute_exec, is_absolute_on, join_path, join_spec, path_order_key, path_order_parts};
use crate::text::{
    chars_of, dec_digits, join_with, lower_c_exec, lower_s, push_decimal, push_str, string_of, string_of_range, trim_range, trim_s,
    trim_string,
};
use crate::order::{lemma_seqs_lt_single, lemma_sorted_rows_in_key_order, OrderedRow, rows_sorted, seqs_lt, sort_rows, str_lt};
use crate::sidecar::strings_view;

verus! {

/// The file in a plugin root that records its installation.
pub const INSTALL_RECEIPT_FILE_NAME: &'static str = ".install.json";

/// The file in a plugin root that marks it for removal.
pub const UNINSTALL_PENDING_MARKER_FILE_NAME: &'static str = ".uninstall-pending";

/// After this many failed deletes a pending uninstall is reported as failed.
pub const DELETE_FAILED_RETRY_THRESHOLD: u32 = 3;

/// Where an installed plugin stands.
#[derive(Debug, Clone, Copy, PartialEq, Eq, Structural)]
pub enum PluginInstallState {
    Installed,
    PendingUninstall,
    DeleteFailed,
}

/// The state a marker read without one takes.
pub fn default_pending_uninstall_state() -> (s: PluginInstallState)
    ensures
        s == PluginInstallState::PendingUninstall,
{
    PluginInstallState::PendingUninstall
}

/// The name of the install receipt file.
pub fn install_receipt_file_name() -> (s: &'static str)
    ensures
        s@ == INSTALL_RECEIPT_FILE_NAME@,
{
    INSTALL_RECEIPT_FILE_NAME
}

/// The install receipt of the plugin rooted at `root`.
pub fn receipt_path_for_plugin_root(root: &str) -> (p: String)
    ensures
        p@ == join_spec(root@, INSTALL_RECEIPT_FILE_NAME@),
{
    join_path(root, INSTALL_RECEIPT_FILE_NAME)
}

/// The uninstall marker of the plugin rooted at `root`.
pub fn pending_marker_path_for_plugin_root(root: &str) -> (p: String)
    ensures
        p@ == join_spec(root@, UNINSTALL_PENDING_MARKER_FILE_NAME@),
{
    join_path(root, UNINSTALL_PENDING_MARKER_FILE_NAME)
}

/// The index of the last `/` in `p`, or -1.
pub open spec fn last_slash(p: Seq<char>) -> int
    decreases p.len(),
{
    if p.len() == 0 {
        -1
    } else if p.last() == '/' {
        p.len() - 1
    } else {
        last_slash(p.drop_last())
    }
}

/// The last component of `p` that is neither empty nor `.` (empty where
/// there is none).
pub open spec fn last_named_component(p: Seq<char>) -> Seq<char>
    decreases p.len(),
{
    if p.len() == 0 {
        seq![]
    } else if p.last() == '/' {
        last_named_component(p.drop_last())
    } else if p.last() == '.' && (p.len() == 1 || p[p.len() - 2] == '/') {
        last_named_component(p.drop_last())
    } else {
        p.subrange(last_slash(p) + 1, p.len() as int)
    }
}

/// `Path::file_name` on Unix: the last named component, unless there is none
/// or it is `..`.
pub open spec fn file_name_spec(p: Seq<char>) -> Option<Seq<char>> {
    let c = last_named_component(p);
    if c.len() == 0 || c == seq!['.', '.'] {
        None
    } else {
        Some(c)
    }
}

pub proof fn lemma_last_slash_bounds(p: Seq<char>)
    ensures
        -1 <= last_slash(p) < p.len(),
        last_slash(p) >= 0 ==> p[last_slash(p)] == '/',
        forall|k: int| last_slash(p) < k < p.len() ==> p[k] != '/',
    decreases p.len(),
{
    if p.len() > 0 && p.last() != '/' {
        lemma_last_slash_bounds(p.drop_last());
        assert forall|k: int| last_slash(p) < k < p.len() implies p[k] != '/' by {
            if k < p.len() - 1 {
                assert(p.drop_last()[k] == p[k]);
            }
        }
    }
}

/// The last path component of `path` (`Path::file_name`).
pub fn file_name_of(path: &str) -> (r: Option<String>)
    ensures
        match r {
            Some(s) => file_name_spec(path@) == Some(s@),
            None => file_name_spec(path@) is None,
        },
{
    let v = chars_of(path);
    let n = v.len();
    assert(v@.take(n as int) =~= v@);
    let mut hi: usize = n;
    loop
        invariant
            hi <= n == v@.len(),
            v@ == path@,
            last_named_component(v@.take(hi as int)) == last_named_component(v@),
        decreases hi,
    {
        if hi == 0 {
            assert(last_named_component(v@.take(0)) =~= Seq::<char>::empty());
            return None;
        }
        let ghost p = v@.take(hi as int);
        assert(p.drop_last() =~= v@.take(hi - 1));
        assert(p.last() == v@[hi - 1]);
        if v[hi - 1] == '/' {
            hi = hi - 1;
        } else if v[hi - 1] == '.' && (hi == 1 || v[hi - 2] == '/') {
            assert(hi >= 2 ==> p[p.len() - 2] == v@[hi - 2]);
            hi = hi - 1;
        } else {
            assert(hi >= 2 ==> p[p.len() - 2] == v@[hi - 2]);
            let mut j: usize = hi;
            while j > 0 && v[j - 1] != '/'
                invariant
                    j <= hi <= v@.len(),
                    last_slash(v@.take(hi as int)) == last_slash(v@.take(j as int)),
                decreases j,
            {
                assert(v@.take(j as int).drop_last() =~= v@.take(j - 1));
                assert(v@.take(j as int).last() == v@[j - 1]);
                j = j - 1;
            }
            proof {
                if j > 0 {
                    assert(v@.take(j as int).last() == v@[j - 1]);
                }
                assert(last_slash(p) + 1 == j);
                lemma_last_slash_bounds(p);
                assert(p.subrange(j as int, hi as int) =~= v@.subrange(j as int, hi as int));
            }
            if hi - j == 2 && v[j] == '.' && v[j + 1] == '.' {
                assert(v@.subrange(j as int, hi as int) =~= seq!['.', '.']);
                return None;
            }
            assert(v@.subrange(j as int, hi as int) != seq!['.', '.']) by {
                if v@.subrange(j as int, hi as int) == seq!['.', '.'] {
                    assert(v@.subrange(j as int, hi as int)[0] == v@[j as int]);
                    assert(v@.subrange(j as int, hi as int)[1] == v@[j + 1]);
                }
            }
            return Some(string_of_range(&v, j, hi));
        }
    }
}

/// The plugin id a root directory stands for: its trimmed directory name, or
/// `unknown-plugin` where that is empty or missing.
pub open spec fn plugin_id_from_root_spec(root: Seq<char>) -> Seq<char> {
    match file_name_spec(root) {
        Some(c) => if trim_s(c).len() > 0 {
            trim_s(c)
        } else {
            "unknown-plugin"@
        },
        None => "unknown-plugin"@,
    }
}

pub fn plugin_id_from_root(root: &str) -> (r: String)
    ensures
        r@ == plugin_id_from_root_spec(root@),
{
    match file_name_of(root) {
        Some(name) => {
            let t = trim_string(name.as_str());
            if t.as_str().is_empty() {
                String::from_str("unknown-plugin")
            } else {
                t
            }
        },
        None => String::from_str("unknown-plugin"),
    }
}

/// The marker kept in a plugin root whose removal is pending.
#[derive(Debug)]
pub struct UninstallPendingMarker {
    pub plugin_id: String,
    pub queued_at_ms: u64,
    pub retry_count: u32,
    pub last_error: Option<String>,
    pub state: PluginInstallState,
}

/// The marker assumed for a root whose marker cannot be read.
pub fn default_marker_for_root(root: &str) -> (m: UninstallPendingMarker)
    ensures
        m.plugin_id@ == plugin_id_from_root_spec(root@),
        m.queued_at_ms == 0,
        m.retry_count == 0,
        m.last_error is None,
        m.state == PluginInstallState::PendingUninstall,
{
    UninstallPendingMarker {
        plugin_id: plugin_id_from_root(root),
        queued_at_ms: 0,
        retry_count: 0,
        last_error: None,
        state: PluginInstallState::PendingUninstall,
    }
}

/// The marker written when removing a plugin root failed with `last_error`.
pub fn pending_uninstall_marker(plugin_id: &str, queued_at_ms: u64, last_error: String) -> (m:
    UninstallPendingMarker)
    ensures
        m.plugin_id@ == plugin_id@,
        m.queued_at_ms == queued_at_ms,
        m.retry_count == 0,
        m.last_error matches Some(e) && e@ == last_error@,
        m.state == PluginInstallState::PendingUninstall,
{
    UninstallPendingMarker {
        plugin_id: String::from_str(plugin_id),
        queued_at_ms,
        retry_count: 0,
        last_error: Some(last_error),
        state: PluginInstallState::PendingUninstall,
    }
}

impl UninstallPendingMarker {
    /// Records another failed delete: the count rises (saturating), the error
    /// is kept, and from the threshold on the removal is reported as failed.
    pub fn record_delete_failure(&mut self, error: String)
        ensures
            final(self).retry_count == (if old(self).retry_count == u32::MAX {
                u32::MAX as int
            } else {
                old(self).retry_count + 1
            }),
            final(self).last_error matches Some(e) && e@ == error@,
            final(self).state == (if final(self).retry_count >= DELETE_FAILED_RETRY_THRESHOLD {
                PluginInstallState::DeleteFailed
            } else {
                PluginInstallState::PendingUninstall
            }),
            final(self).plugin_id == old(self).plugin_id,
            final(self).queued_at_ms == old(self).queued_at_ms,
    {
        self.retry_count = self.retry_count.saturating_add(1);
        self.last_error = Some(error);
        self.state = if self.retry_count >= DELETE_FAILED_RETRY_THRESHOLD {
            PluginInstallState::DeleteFailed
        } else {
            PluginInstallState::PendingUninstall
        };
    }
}

/// A failed delete is retried twice more before the removal is reported as
/// failed, and it stays failed after that.
pub proof fn law_delete_failed_after_threshold(count: u32)
    ensures
        count + 1 < DELETE_FAILED_RETRY_THRESHOLD ==> count < 2,
        count >= 2 ==> (if count == u32::MAX {
            u32::MAX as int
        } else {
            count + 1
        }) >= DELETE_FAILED_RETRY_THRESHOLD,
{
}

/// A plugin manifest as the host reads it (its metadata's `info` already
/// rendered as JSON text).
#[derive(Debug)]
pub struct PluginManifest {
    pub id: String,
    pub api_version: u32,
    pub name: Option<String>,
    pub entry_symbol: Option<String>,
    pub info_json: Option<String>,
}

/// The receipt written into a plugin root at install time.
#[derive(Debug)]
pub struct PluginInstallReceipt {
    pub manifest: PluginManifest,
    pub library_rel_path: String,
}

/// An installed plugin that discovery found usable.
#[derive(Debug)]
pub struct DiscoveredPlugin {
    pub root_dir: String,
    pub manifest: PluginManifest,
    pub library_path: String,
}

/// Why a receipt does not make a usable plugin.
#[derive(Debug, Clone, Copy, PartialEq, Eq, Structural)]
pub enum ReceiptIssue {
    EmptyManifestId,
    EmptyLibraryPath,
}

/// Turns the receipt found in `root_dir` into a discovered plugin: the
/// manifest id and the library path must not be blank; the library lies at
/// the receipt's path under the root.
pub fn discovered_plugin(root_dir: String, receipt: PluginInstallReceipt) -> (r: Result<
    DiscoveredPlugin,
    ReceiptIssue,
>)
    ensures
        trim_s(receipt.manifest.id@).len() == 0 ==> r == Err::<DiscoveredPlugin, ReceiptIssue>(
            ReceiptIssue::EmptyManifestId,
        ),
        trim_s(receipt.manifest.id@).len() > 0 && trim_s(receipt.library_rel_path@).len() == 0
            ==> r == Err::<DiscoveredPlugin, ReceiptIssue>(ReceiptIssue::EmptyLibraryPath),
        trim_s(receipt.manifest.id@).len() > 0 && trim_s(receipt.library_rel_path@).len() > 0
            ==> (r matches Ok(d) && d.root_dir@ == root_dir@ && d.manifest == receipt.manifest
            && d.library_path@ == join_spec(root_dir@, receipt.library_rel_path@)),
{
    if trim_string(receipt.manifest.id.as_str()).as_str().is_empty() {
        return Err(ReceiptIssue::EmptyManifestId);
    }
    if trim_string(receipt.library_rel_path.as_str()).as_str().is_empty() {
        return Err(ReceiptIssue::EmptyLibraryPath);
    }
    let library_path = join_path(root_dir.as_str(), receipt.library_rel_path.as_str());
    Ok(DiscoveredPlugin { root_dir, manifest: receipt.manifest, library_path })
}

/// The report of a plugin built for another API version than the host's.
pub open spec fn api_mismatch_text(id: Seq<char>, plugin: u32, host: u32) -> Seq<char> {
    "plugin `"@ + id + "` api_version mismatch: plugin="@ + dec_digits(plugin as nat) + ", host="@
        + dec_digits(host as nat)
}

/// The report of a plugin whose library file is missing.
pub open spec fn library_missing_text(id: Seq<char>, library_path: Seq<char>) -> Seq<char> {
    "plugin `"@ + id + "` library not found: "@ + library_path
}

/// The report of a plugin whose metadata names another id than its manifest.
pub open spec fn id_mismatch_text(manifest_id: Seq<char>, metadata_id: Seq<char>) -> Seq<char> {
    "plugin id mismatch: manifest.id=`"@ + manifest_id + "`, metadata.id=`"@ + metadata_id + "`"@
}

/// The report of a plugin whose metadata declares another API version than
/// the host's.
pub open spec fn metadata_api_mismatch_text(id: Seq<char>, plugin: u32, host: u32) -> Seq<char> {
    "plugin `"@ + id + "` metadata api_version mismatch: plugin="@ + dec_digits(plugin as nat)
        + ", host="@ + dec_digits(host as nat)
}

fn api_mismatch_message(head: &str, id: &str, middle: &str, plugin: u32, host: u32) -> (m: String)
    ensures
        m@ == head@ + id@ + middle@ + dec_digits(plugin as nat) + ", host="@ + dec_digits(
            host as nat,
        ),
{
    let mut v: Vec<char> = Vec::new();
    push_str(&mut v, head);
    push_str(&mut v, id);
    push_str(&mut v, middle);
    push_decimal(&mut v, plugin as u64);
    push_str(&mut v, ", host=");
    push_decimal(&mut v, host as u64);
    let m = string_of(&v);
    assert(m@ =~= head@ + id@ + middle@ + dec_digits(plugin as nat) + ", host="@ + dec_digits(
        host as nat,
    ));
    m
}

/// What is checked before a discovered plugin's library is loaded: its
/// manifest must declare the host's API version (`host_api_version`), and its
/// library must exist (`library_exists`, as the file system reports it).
pub fn check_before_load(discovered: &DiscoveredPlugin, host_api_version: u32, library_exists: bool) -> (r: Result<(), String>)
    ensures
        discovered.manifest.api_version != host_api_version ==> (r matches Err(m) && m@
            == api_mismatch_text(
            discovered.manifest.id@,
            discovered.manifest.api_version,
            host_api_version,
        )),
        discovered.manifest.api_version == host_api_version && !library_exists ==> (r matches Err(
            m,
        ) && m@ == library_missing_text(discovered.manifest.id@, discovered.library_path@)),
        discovered.manifest.api_version == host_api_version && library_exists ==> r is Ok,
{
    if discovered.manifest.api_version != host_api_version {
        let m = api_mismatch_message(
            "plugin `",
            discovered.manifest.id.as_str(),
            "` api_version mismatch: plugin=",
            discovered.manifest.api_version,
            host_api_version,
        );
        proof {
            reveal_strlit("plugin `");
            reveal_strlit("` api_version mismatch: plugin=");
        }
        return Err(m);
    }
    if !library_exists {
        let mut v: Vec<char> = Vec::new();
        push_str(&mut v, "plugin `");
        push_str(&mut v, discovered.manifest.id.as_str());
        push_str(&mut v, "` library not found: ");
        push_str(&mut v, discovered.library_path.as_str());
        let m = string_of(&v);
        assert(m@ =~= library_missing_text(discovered.manifest.id@, discovered.library_path@));
        return Err(m);
    }
    Ok(())
}

/// What is checked of the module that a plugin's entry point handed back, in
/// this order: the module's API version, then that the metadata names the
/// manifest's id, then the metadata's API version.
pub fn check_loaded_module(
    manifest_id: &str,
    module_api_version: u32,
    metadata_id: &str,
    metadata_api_version: u32,
    host_api_version: u32,
) -> (r: Result<(), String>)
    ensures
        module_api_version != host_api_version ==> (r matches Err(m) && m@ == api_mismatch_text(
            manifest_id@,
            module_api_version,
            host_api_version,
        )),
        module_api_version == host_api_version && metadata_id@ != manifest_id@ ==> (r matches Err(
            m,
        ) && m@ == id_mismatch_text(manifest_id@, metadata_id@)),
        module_api_version == host_api_version && metadata_id@ == manifest_id@
            && metadata_api_version != host_api_version ==> (r matches Err(m) && m@
            == metadata_api_mismatch_text(metadata_id@, metadata_api_version, host_api_version)),
        module_api_version == host_api_version && metadata_id@ == manifest_id@
            && metadata_api_version == host_api_version ==> r is Ok,
{
    if module_api_version != host_api_version {
        let m = api_mismatch_message(
            "plugin `",
            manifest_id,
            "` api_version mismatch: plugin=",
            module_api_version,
            host_api_version,
        );
        proof {
            reveal_strlit("plugin `");
            reveal_strlit("` api_version mismatch: plugin=");
        }
        return Err(m);
    }
    let a = String::from_str(manifest_id);
    let b = String::from_str(metadata_id);
    if a != b {
        let mut v: Vec<char> = Vec::new();
        push_str(&mut v, "plugin id mismatch: manifest.id=`");
        push_str(&mut v, manifest_id);
        push_str(&mut v, "`, metadata.id=`");
        push_str(&mut v, metadata_id);
        push_str(&mut v, "`");
        let m = string_of(&v);
        assert(m@ =~= id_mismatch_text(manifest_id@, metadata_id@));
        return Err(m);
    }
    if metadata_api_version != host_api_version {
        let m = api_mismatch_message(
            "plugin `",
            metadata_id,
            "` metadata api_version mismatch: plugin=",
            metadata_api_version,
            host_api_version,
        );
        proof {
            reveal_strlit("plugin `");
            reveal_strlit("` metadata api_version mismatch: plugin=");
        }
        return Err(m);
    }
    Ok(())
}

/// A plugin root with an uninstall marker, and its receipt where it could be
/// read.
#[derive(Debug)]
pub struct PendingUninstallPlugin {
    pub root_dir: String,
    pub marker: UninstallPendingMarker,
    pub receipt: Option<PluginInstallReceipt>,
}

/// One row of the list of installed plugins.
#[derive(Debug)]
pub struct InstalledPluginInfo {
    pub id: String,
    pub name: String,
    pub root_dir: String,
    pub library_path: String,
    pub info_json: Option<String>,
    pub install_state: PluginInstallState,
    pub uninstall_retry_count: u32,
    pub uninstall_last_error: Option<String>,
}

pub open spec fn opt_str(o: Option<String>) -> Option<Seq<char>> {
    match o {
        Some(s) => Some(s@),
        None => None,
    }
}

fn clone_opt(o: &Option<String>) -> (r: Option<String>)
    ensures
        opt_str(r) == opt_str(*o),
{
    match o {
        Some(s) => Some(s.clone()),
        None => None,
    }
}

/// The row of a usable installed plugin: named by its manifest, or by its id
/// where the manifest gives no name.
pub fn info_from_discovered(d: &DiscoveredPlugin) -> (i: InstalledPluginInfo)
    ensures
        i.id@ == d.manifest.id@,
        i.name@ == (match d.manifest.name {
            Some(n) => n@,
            None => d.manifest.id@,
        }),
        i.root_dir@ == d.root_dir@,
        i.library_path@ == d.library_path@,
        opt_str(i.info_json) == opt_str(d.manifest.info_json),
        i.install_state == PluginInstallState::Installed,
        i.uninstall_retry_count == 0,
        i.uninstall_last_error is None,
{
    let name = match &d.manifest.name {
        Some(n) => n.clone(),
        None => d.manifest.id.clone(),
    };
    InstalledPluginInfo {
        id: d.manifest.id.clone(),
        name,
        root_dir: d.root_dir.clone(),
        library_path: d.library_path.clone(),
        info_json: clone_opt(&d.manifest.info_json),
        install_state: PluginInstallState::Installed,
        uninstall_retry_count: 0,
        uninstall_last_error: None,
    }
}

/// The id a pending removal stands for: its receipt's manifest id, or the
/// marker's plugin id where there is no receipt.
pub open spec fn pending_id_spec(p: PendingUninstallPlugin) -> Seq<char> {
    match p.receipt {
        Some(r) => r.manifest.id@,
        None => p.marker.plugin_id@,
    }
}

/// The row of a plugin whose removal is pending: what its receipt says where
/// there is one, else the marker's plugin id; the library path falls back to
/// the root; the state, retry count and error come from the marker.
pub fn info_from_pending(p: &PendingUninstallPlugin) -> (i: InstalledPluginInfo)
    ensures
        i.id@ == pending_id_spec(*p),
        i.name@ == (match p.receipt {
            Some(r) => match r.manifest.name {
                Some(n) => n@,
                None => pending_id_spec(*p),
            },
            None => pending_id_spec(*p),
        }),
        i.root_dir@ == p.root_dir@,
        i.library_path@ == (match p.receipt {
            Some(r) => join_spec(p.root_dir@, r.library_rel_path@),
            None => p.root_dir@,
        }),
        opt_str(i.info_json) == (match p.receipt {
            Some(r) => opt_str(r.manifest.info_json),
            None => None,
        }),
        i.install_state == p.marker.state,
        i.uninstall_retry_count == p.marker.retry_count,
        opt_str(i.uninstall_last_error) == opt_str(p.marker.last_error),
{
    let id = match &p.receipt {
        Some(r) => r.manifest.id.clone(),
        None => p.marker.plugin_id.clone(),
    };
    let name = match &p.receipt {
        Some(r) => match &r.manifest.name {
            Some(n) => n.clone(),
            None => id.clone(),
        },
        None => id.clone(),
    };
    let library_path = match &p.receipt {
        Some(r) => join_path(p.root_dir.as_str(), r.library_rel_path.as_str()),
        None => p.root_dir.clone(),
    };
    let info_json = match &p.receipt {
        Some(r) => clone_opt(&r.manifest.info_json),
        None => None,
    };
    InstalledPluginInfo {
        id,
        name,
        root_dir: p.root_dir.clone(),
        library_path,
        info_json,
        install_state: p.marker.state,
        uninstall_retry_count: p.marker.retry_count,
        uninstall_last_error: clone_opt(&p.marker.last_error),
    }
}

/// Installed plugins listed by id, then by root directory text, in `str`
/// order.
pub open spec fn infos_in_order(r: Seq<InstalledPluginInfo>) -> bool {
    forall|i: int, j: int|
        0 <= i < j < r.len() ==> {
            &&& !str_lt((#[trigger] r[j]).id@, (#[trigger] r[i]).id@)
            &&& r[i].id@ == r[j].id@ ==> !str_lt(r[j].root_dir@, r[i].root_dir@)
        }
}

/// Sorting installed plugins lists them by id, then by root directory.
pub proof fn law_infos_in_order(r: Seq<InstalledPluginInfo>)
    requires
        rows_sorted(r),
    ensures
        infos_in_order(r),
{
    lemma_sorted_rows_in_key_order(r);
    assert forall|i: int, j: int| 0 <= i < j < r.len() && (#[trigger] r[i]).id@ == (#[trigger] r[j]).id@ implies !str_lt(
        r[j].root_dir@,
        r[i].root_dir@,
    ) by {
        lemma_seqs_lt_single(r[j].root_dir@, r[i].root_dir@);
    }
}

impl OrderedRow for InstalledPluginInfo {
    open spec fn row_key(&self) -> (int, Seq<char>, Seq<Seq<char>>) {
        (0, self.id@, seq![self.root_dir@])
    }

    fn row_rank(&self) -> (r: i64) {
        0
    }

    fn row_primary(&self) -> (s: &str) {
        self.id.as_str()
    }

    fn row_secondary(&self) -> (s: Vec<String>) {
        let s = vec![self.root_dir.clone()];
        assert(strings_view(s@) =~= seq![self.root_dir@]);
        s
    }
}

/// `i` is the row that `info_from_discovered` makes of `d`.
pub open spec fn is_discovered_row(i: InstalledPluginInfo, d: DiscoveredPlugin) -> bool {
    &&& i.id@ == d.manifest.id@
    &&& i.name@ == (match d.manifest.name {
        Some(n) => n@,
        None => d.manifest.id@,
    })
    &&& i.root_dir@ == d.root_dir@
    &&& i.library_path@ == d.library_path@
    &&& opt_str(i.info_json) == opt_str(d.manifest.info_json)
    &&& i.install_state == PluginInstallState::Installed
    &&& i.uninstall_retry_count == 0
    &&& i.uninstall_last_error is None
}

/// `i` is the row that `info_from_pending` makes of `p`.
pub open spec fn is_pending_row(i: InstalledPluginInfo, p: PendingUninstallPlugin) -> bool {
    &&& i.id@ == pending_id_spec(p)
    &&& i.name@ == (match p.receipt {
        Some(r) => match r.manifest.name {
            Some(n) => n@,
            None => pending_id_spec(p),
        },
        None => pending_id_spec(p),
    })
    &&& i.root_dir@ == p.root_dir@
    &&& i.library_path@ == (match p.receipt {
        Some(r) => join_spec(p.root_dir@, r.library_rel_path@),
        None => p.root_dir@,
    })
    &&& opt_str(i.info_json) == (match p.receipt {
        Some(r) => opt_str(r.manifest.info_json),
        None => None,
    })
    &&& i.install_state == p.marker.state
    &&& i.uninstall_retry_count == p.marker.retry_count
    &&& opt_str(i.uninstall_last_error) == opt_str(p.marker.last_error)
}

/// `rows` holds a row for each usable plugin, in order, then one for each
/// pending removal, in order.
pub open spec fn is_listing(rows: Seq<InstalledPluginInfo>, discovered: Seq<DiscoveredPlugin>, pending: Seq<PendingUninstallPlugin>) -> bool {
    &&& rows.len() == discovered.len() + pending.len()
    &&& forall|k: int| 0 <= k < discovered.len() ==> is_discovered_row(#[trigger] rows[k], discovered[k])
    &&& forall|k: int| 0 <= k < pending.len() ==> is_pending_row(#[trigger] rows[discovered.len() + k], pending[k])
}

/// The rows of the installed plugins, unsorted.
pub fn installed_rows(discovered: &Vec<DiscoveredPlugin>, pending: &Vec<PendingUninstallPlugin>) -> (r: Vec<InstalledPluginInfo>)
    ensures
        is_listing(r@, discovered@, pending@),
{
    let mut out: Vec<InstalledPluginInfo> = Vec::new();
    let mut i: usize = 0;
    while i < discovered.len()
        invariant
            i <= discovered@.len(),
            out@.len() == i,
            forall|k: int| 0 <= k < i ==> is_discovered_row(#[trigger] out@[k], discovered@[k]),
        decreases discovered@.len() - i,
    {
        let row = info_from_discovered(&discovered[i]);
        out.push(row);
        i = i + 1;
    }
    let mut j: usize = 0;
    while j < pending.len()
        invariant
            j <= pending@.len(),
            out@.len() == discovered@.len() + j,
            forall|k: int| 0 <= k < discovered@.len() ==> is_discovered_row(#[trigger] out@[k], discovered@[k]),
            forall|k: int| 0 <= k < j ==> is_pending_row(#[trigger] out@[discovered@.len() + k], pending@[k]),
        decreases pending@.len() - j,
    {
        let row = info_from_pending(&pending[j]);
        let ghost before = out@;
        out.push(row);
        proof {
            assert forall|k: int| 0 <= k < discovered@.len() implies is_discovered_row(#[trigger] out@[k], discovered@[k]) by {
                assert(out@[k] == before[k]);
            }
            assert forall|k: int| 0 <= k < j + 1 implies is_pending_row(#[trigger] out@[discovered@.len() + k], pending@[k]) by {
                if k < j {
                    assert(out@[discovered@.len() + k] == before[discovered@.len() + k]);
                }
            }
        }
        j = j + 1;
    }
    out
}

/// The installed plugins, usable ones and those whose removal is pending,
/// ordered by id and then by root directory.
pub fn list_installed_plugins(discovered: Vec<DiscoveredPlugin>, pending: Vec<PendingUninstallPlugin>) -> (r: Vec<InstalledPluginInfo>)
    ensures
        exists|rows: Seq<InstalledPluginInfo>|
            is_listing(rows, discovered@, pending@) && #[trigger] rows.to_multiset() == r@.to_multiset(),
        rows_sorted(r@),
        infos_in_order(r@),
{
    let rows = installed_rows(&discovered, &pending);
    let ghost rows_view = rows@;
    let r = sort_rows(rows);
    assert(is_listing(rows_view, discovered@, pending@) && rows_view.to_multiset() == r@.to_multiset());
    proof {
        law_infos_in_order(r@);
    }
    r
}

/// Why an uninstall request cannot go ahead.
#[derive(Debug)]
pub enum UninstallIssue {
    EmptyPluginId,
    NotInstalled { plugin_id: String },
}

/// `x` is one of `roots`.
pub open spec fn root_listed(roots: Seq<String>, x: Seq<char>) -> bool {
    exists|k: int| 0 <= k < roots.len() && #[trigger] roots[k]@ == x
}

/// `x` is the root of a usable plugin with manifest id `id`, among the first
/// `n` of `discovered`.
pub open spec fn discovered_root(discovered: Seq<DiscoveredPlugin>, n: int, id: Seq<char>, x: Seq<char>) -> bool {
    exists|k: int| 0 <= k < n && #[trigger] discovered[k].manifest.id@ == id && discovered[k].root_dir@ == x
}

/// `x` is the root of a pending removal that stands for `id`, among the first
/// `n` of `pending`.
pub open spec fn pending_root(pending: Seq<PendingUninstallPlugin>, n: int, id: Seq<char>, x: Seq<char>) -> bool {
    exists|k: int| 0 <= k < n && #[trigger] pending_id_spec(pending[k]) == id && pending[k].root_dir@ == x
}

fn push_root_once(roots: &mut Vec<String>, root: &String)
    ensures
        forall|x: Seq<char>| #[trigger] root_listed(final(roots)@, x) <==> (root_listed(old(roots)@, x) || x == root@),
{
    let mut i: usize = 0;
    while i < roots.len()
        invariant
            i <= roots@.len(),
            roots@ == old(roots)@,
            forall|k: int| 0 <= k < i ==> #[trigger] roots@[k]@ != root@,
        decreases roots@.len() - i,
    {
        if roots[i] == *root {
            proof {
                assert forall|x: Seq<char>| #[trigger] root_listed(roots@, x) <==> (root_listed(old(roots)@, x) || x == root@) by {
                    if x == root@ {
                        assert(roots@[i as int]@ == x);
                    }
                }
            }
            return;
        }
        i = i + 1;
    }
    let ghost before = roots@;
    roots.push(root.clone());
    proof {
        assert forall|x: Seq<char>| #[trigger] root_listed(roots@, x) <==> (root_listed(before, x) || x == root@) by {
            if root_listed(roots@, x) {
                let k = choose|k: int| 0 <= k < roots@.len() && #[trigger] roots@[k]@ == x;
                if k < before.len() {
                    assert(before[k]@ == x);
                }
            }
            if root_listed(before, x) {
                let k = choose|k: int| 0 <= k < before.len() && #[trigger] before[k]@ == x;
                assert(roots@[k]@ == x);
            }
            if x == root@ {
                assert(roots@[before.len() as int]@ == x);
            }
        }
    }
}

/// The roots an uninstall of `plugin_id` removes: those of the usable plugins
/// with that manifest id and of the pending removals that stand for it, each
/// once. A blank id, or one that nothing stands for, is refused.
pub fn uninstall_roots(plugin_id: &str, discovered: &Vec<DiscoveredPlugin>, pending: &Vec<PendingUninstallPlugin>) -> (r: Result<Vec<String>, UninstallIssue>)
    ensures
        trim_s(plugin_id@).len() == 0 ==> r matches Err(UninstallIssue::EmptyPluginId),
        trim_s(plugin_id@).len() > 0 ==> match r {
            Ok(roots) => roots@.len() > 0 && forall|x: Seq<char>| #[trigger] root_listed(roots@, x)
                <==> (discovered_root(discovered@, discovered@.len() as int, trim_s(plugin_id@), x)
                || pending_root(pending@, pending@.len() as int, trim_s(plugin_id@), x)),
            Err(e) => (e matches UninstallIssue::NotInstalled { plugin_id: p } && p@ == trim_s(plugin_id@))
                && (forall|k: int| 0 <= k < discovered@.len() ==> #[trigger] discovered@[k].manifest.id@ != trim_s(plugin_id@))
                && (forall|k: int| 0 <= k < pending@.len() ==> #[trigger] pending_id_spec(pending@[k]) != trim_s(plugin_id@)),
        },
{
    let id = trim_string(plugin_id);
    if id.as_str().is_empty() {
        return Err(UninstallIssue::EmptyPluginId);
    }
    let ghost target = trim_s(plugin_id@);
    let mut roots: Vec<String> = Vec::new();
    let mut i: usize = 0;
    while i < discovered.len()
        invariant
            i <= discovered@.len(),
            id@ == target,
            forall|x: Seq<char>| #[trigger] root_listed(roots@, x) <==> discovered_root(discovered@, i as int, target, x),
        decreases discovered@.len() - i,
    {
        let ghost before = roots@;
        if discovered[i].manifest.id == id {
            push_root_once(&mut roots, &discovered[i].root_dir);
        }
        proof {
            assert forall|x: Seq<char>| #[trigger] root_listed(roots@, x) <==> discovered_root(discovered@, i + 1, target, x) by {
                if discovered_root(discovered@, i + 1, target, x) {
                    let k = choose|k: int| 0 <= k < i + 1 && #[trigger] discovered@[k].manifest.id@ == target && discovered@[k].root_dir@ == x;
                    if k < i {
                        assert(discovered_root(discovered@, i as int, target, x));
                        assert(root_listed(before, x));
                    }
                }
                if discovered_root(discovered@, i as int, target, x) {
                    let k = choose|k: int| 0 <= k < i && #[trigger] discovered@[k].manifest.id@ == target && discovered@[k].root_dir@ == x;
                    assert(discovered@[k].manifest.id@ == target);
                }
                if root_listed(before, x) {
                    assert(discovered_root(discovered@, i as int, target, x));
                }
            }
        }
        i = i + 1;
    }
    let mut j: usize = 0;
    while j < pending.len()
        invariant
            j <= pending@.len(),
            id@ == target,
            forall|x: Seq<char>| #[trigger] root_listed(roots@, x)
                <==> (discovered_root(discovered@, discovered@.len() as int, target, x)
                || pending_root(pending@, j as int, target, x)),
        decreases pending@.len() - j,
    {
        let ghost before = roots@;
        let p = &pending[j];
        let matches = match &p.receipt {
            Some(rc) => rc.manifest.id == id,
            None => p.marker.plugin_id == id,
        };
        assert(matches == (pending_id_spec(pending@[j as int]) == target));
        if matches {
            push_root_once(&mut roots, &p.root_dir);
        }
        proof {
            assert forall|x: Seq<char>| #[trigger] root_listed(roots@, x)
                <==> (discovered_root(discovered@, discovered@.len() as int, target, x)
                || pending_root(pending@, j + 1, target, x)) by {
                if pending_root(pending@, j + 1, target, x) {
                    let k = choose|k: int| 0 <= k < j + 1 && #[trigger] pending_id_spec(pending@[k]) == target && pending@[k].root_dir@ == x;
                    if k < j {
                        assert(pending_root(pending@, j as int, target, x));
                        assert(root_listed(before, x));
                    }
                }
                if pending_root(pending@, j as int, target, x) {
                    let k = choose|k: int| 0 <= k < j && #[trigger] pending_id_spec(pending@[k]) == target && pending@[k].root_dir@ == x;
                    assert(pending_id_spec(pending@[k]) == target);
                }
                if root_listed(before, x) {
                    assert(discovered_root(discovered@, discovered@.len() as int, target, x)
                        || pending_root(pending@, j as int, target, x));
                }
            }
        }
        j = j + 1;
    }
    if roots.len() == 0 {
        proof {
            assert forall|k: int| 0 <= k < discovered@.len() implies #[trigger] discovered@[k].manifest.id@ != target by {
                if discovered@[k].manifest.id@ == target {
                    let x = discovered@[k].root_dir@;
                    assert(discovered_root(discovered@, discovered@.len() as int, target, x));
                    assert(root_listed(roots@, x));
                }
            }
            assert forall|k: int| 0 <= k < pending@.len() implies #[trigger] pending_id_spec(pending@[k]) != target by {
                if pending_id_spec(pending@[k]) == target {
                    let x = pending@[k].root_dir@;
                    assert(pending_root(pending@, pending@.len() as int, target, x));
                    assert(root_listed(roots@, x));
                }
            }
        }
        return Err(UninstallIssue::NotInstalled { plugin_id: id });
    }
    Ok(roots)
}

/// A packaged plugin's manifest, as far as installing and listing read it.
#[derive(Debug)]
pub struct WasmPluginManifest {
    pub id: String,
    pub name: String,
    pub version: String,
    pub component_count: usize,
}

/// A packaged plugin that discovery found usable.
#[derive(Debug)]
pub struct WasmDiscoveredPlugin {
    pub root_dir: String,
    pub manifest_path: String,
    pub manifest: WasmPluginManifest,
}

/// The receipt of a packaged plugin.
#[derive(Debug)]
pub struct WasmPluginInstallReceipt {
    pub manifest: WasmPluginManifest,
    pub manifest_rel_path: String,
}

/// A packaged plugin root with an uninstall marker.
#[derive(Debug)]
pub struct WasmPendingUninstall {
    pub root_dir: String,
    pub marker: UninstallPendingMarker,
    pub receipt: Option<WasmPluginInstallReceipt>,
}

/// One row of the list of installed packaged plugins.
#[derive(Debug)]
pub struct InstalledPlugin {
    pub id: String,
    pub name: String,
    pub version: String,
    pub root_dir: String,
    pub manifest_path: String,
    pub component_count: usize,
    pub install_state: PluginInstallState,
    pub uninstall_retry_count: u32,
    pub uninstall_last_error: Option<String>,
}

/// Installed packages listed by id in `str` order, then by root directory as
/// paths order, component by component.
pub open spec fn packages_in_order(r: Seq<InstalledPlugin>) -> bool {
    forall|i: int, j: int|
        0 <= i < j < r.len() ==> {
            &&& !str_lt((#[trigger] r[j]).id@, (#[trigger] r[i]).id@)
            &&& r[i].id@ == r[j].id@ ==> !seqs_lt(path_order_key(r[j].root_dir@), path_order_key(r[i].root_dir@))
        }
}

/// Sorting installed packages lists them by id, then by root path.
pub proof fn law_packages_in_order(r: Seq<InstalledPlugin>)
    requires
        rows_sorted(r),
    ensures
        packages_in_order(r),
{
    lemma_sorted_rows_in_key_order(r);
}

impl OrderedRow for InstalledPlugin {
    /// By id, then by root directory as `Path` orders it (component by
    /// component).
    open spec fn row_key(&self) -> (int, Seq<char>, Seq<Seq<char>>) {
        (0, self.id@, path_order_key(self.root_dir@))
    }

    fn row_rank(&self) -> (r: i64) {
        0
    }

    fn row_primary(&self) -> (s: &str) {
        self.id.as_str()
    }

    fn row_secondary(&self) -> (s: Vec<String>) {
        let s = path_order_parts(self.root_dir.as_str());
        assert(strings_view(s@) =~= crate::paths::strings_view(s@));
        s
    }
}

/// `i` is the row of the usable packaged plugin `d`.
pub open spec fn is_package_row(i: InstalledPlugin, d: WasmDiscoveredPlugin) -> bool {
    &&& i.id@ == d.manifest.id@
    &&& i.name@ == d.manifest.name@
    &&& i.version@ == d.manifest.version@
    &&& i.root_dir@ == d.root_dir@
    &&& i.manifest_path@ == d.manifest_path@
    &&& i.component_count == d.manifest.component_count
    &&& i.install_state == PluginInstallState::Installed
    &&& i.uninstall_retry_count == 0
    &&& i.uninstall_last_error is None
}

/// `i` is the row of the pending removal `p`: the receipt's manifest where
/// there is one, else the marker's plugin id as id and name, `unknown` as
/// version, the manifest file under the root and no components.
pub open spec fn is_pending_package_row(i: InstalledPlugin, p: WasmPendingUninstall, manifest_file_name: Seq<char>) -> bool {
    &&& i.id@ == (match p.receipt {
        Some(r) => r.manifest.id@,
        None => p.marker.plugin_id@,
    })
    &&& i.name@ == (match p.receipt {
        Some(r) => r.manifest.name@,
        None => p.marker.plugin_id@,
    })
    &&& i.version@ == (match p.receipt {
        Some(r) => r.manifest.version@,
        None => "unknown"@,
    })
    &&& i.root_dir@ == p.root_dir@
    &&& i.manifest_path@ == (match p.receipt {
        Some(r) => join_spec(p.root_dir@, r.manifest_rel_path@),
        None => join_spec(p.root_dir@, manifest_file_name),
    })
    &&& i.component_count == (match p.receipt {
        Some(r) => r.manifest.component_count,
        None => 0,
    })
    &&& i.install_state == p.marker.state
    &&& i.uninstall_retry_count == p.marker.retry_count
    &&& opt_str(i.uninstall_last_error) == opt_str(p.marker.last_error)
}

pub fn package_row(d: &WasmDiscoveredPlugin) -> (i: InstalledPlugin)
    ensures
        is_package_row(i, *d),
{
    InstalledPlugin {
        id: d.manifest.id.clone(),
        name: d.manifest.name.clone(),
        version: d.manifest.version.clone(),
        root_dir: d.root_dir.clone(),
        manifest_path: d.manifest_path.clone(),
        component_count: d.manifest.component_count,
        install_state: PluginInstallState::Installed,
        uninstall_retry_count: 0,
        uninstall_last_error: None,
    }
}

pub fn pending_package_row(p: &WasmPendingUninstall, manifest_file_name: &str) -> (i: InstalledPlugin)
    ensures
        is_pending_package_row(i, *p, manifest_file_name@),
{
    match &p.receipt {
        Some(r) => InstalledPlugin {
            id: r.manifest.id.clone(),
            name: r.manifest.name.clone(),
            version: r.manifest.version.clone(),
            root_dir: p.root_dir.clone(),
            manifest_path: join_path(p.root_dir.as_str(), r.manifest_rel_path.as_str()),
            component_count: r.manifest.component_count,
            install_state: p.marker.state,
            uninstall_retry_count: p.marker.retry_count,
            uninstall_last_error: clone_opt(&p.marker.last_error),
        },
        None => InstalledPlugin {
            id: p.marker.plugin_id.clone(),
            name: p.marker.plugin_id.clone(),
            version: String::from_str("unknown"),
            root_dir: p.root_dir.clone(),
            manifest_path: join_path(p.root_dir.as_str(), manifest_file_name),
            component_count: 0,
            install_state: p.marker.state,
            uninstall_retry_count: p.marker.retry_count,
            uninstall_last_error: clone_opt(&p.marker.last_error),
        },
    }
}

/// `rows` holds a row for each usable packaged plugin, then one for each
/// pending removal, in order.
pub open spec fn is_package_listing(rows: Seq<InstalledPlugin>, discovered: Seq<WasmDiscoveredPlugin>, pending: Seq<WasmPendingUninstall>, manifest_file_name: Seq<char>) -> bool {
    &&& rows.len() == discovered.len() + pending.len()
    &&& forall|k: int| 0 <= k < discovered.len() ==> is_package_row(#[trigger] rows[k], discovered[k])
    &&& forall|k: int| 0 <= k < pending.len() ==> is_pending_package_row(#[trigger] rows[discovered.len() + k], pending[k], manifest_file_name)
}

/// The installed packaged plugins, usable ones and those whose removal is
/// pending, ordered by id and then by root directory as paths order
/// (component by component). `manifest_file_name`
/// is the manifest's file name in a package root.
pub fn list_installed(discovered: Vec<WasmDiscoveredPlugin>, pending: Vec<WasmPendingUninstall>, manifest_file_name: &str) -> (r: Vec<InstalledPlugin>)
    ensures
        exists|rows: Seq<InstalledPlugin>|
            is_package_listing(rows, discovered@, pending@, manifest_file_name@) && #[trigger] rows.to_multiset() == r@.to_multiset(),
        rows_sorted(r@),
        packages_in_order(r@),
{
    let mut out: Vec<InstalledPlugin> = Vec::new();
    let mut i: usize = 0;
    while i < discovered.len()
        invariant
            i <= discovered@.len(),
            out@.len() == i,
            forall|k: int| 0 <= k < i ==> is_package_row(#[trigger] out@[k], discovered@[k]),
        decreases discovered@.len() - i,
    {
        let row = package_row(&discovered[i]);
        out.push(row);
        i = i + 1;
    }
    let mut j: usize = 0;
    while j < pending.len()
        invariant
            j <= pending@.len(),
            out@.len() == discovered@.len() + j,
            forall|k: int| 0 <= k < discovered@.len() ==> is_package_row(#[trigger] out@[k], discovered@[k]),
            forall|k: int| 0 <= k < j ==> is_pending_package_row(#[trigger] out@[discovered@.len() + k], pending@[k], manifest_file_name@),
        decreases pending@.len() - j,
    {
        let row = pending_package_row(&pending[j], manifest_file_name);
        let ghost before = out@;
        out.push(row);
        proof {
            assert forall|k: int| 0 <= k < discovered@.len() implies is_package_row(#[trigger] out@[k], discovered@[k]) by {
                assert(out@[k] == before[k]);
            }
            assert forall|k: int| 0 <= k < j + 1 implies is_pending_package_row(#[trigger] out@[discovered@.len() + k], pending@[k], manifest_file_name@) by {
                if k < j {
                    assert(out@[discovered@.len() + k] == before[discovered@.len() + k]);
                }
            }
        }
        j = j + 1;
    }
    let ghost rows = out@;
    let r = sort_rows(out);
    assert(is_package_listing(rows, discovered@, pending@, manifest_file_name@) && rows.to_multiset() == r@.to_multiset());
    proof {
        law_packages_in_order(r@);
    }
    r
}

/// The row of a packaged plugin just installed under `plugins_dir`: its root
/// is the directory named by its id.
pub fn installed_package(plugins_dir: &str, manifest: &WasmPluginManifest, manifest_file_name: &str) -> (i: InstalledPlugin)
    ensures
        i.id@ == manifest.id@,
        i.name@ == manifest.name@,
        i.version@ == manifest.version@,
        i.root_dir@ == join_spec(plugins_dir@, manifest.id@),
        i.manifest_path@ == join_spec(join_spec(plugins_dir@, manifest.id@), manifest_file_name@),
        i.component_count == manifest.component_count,
        i.install_state == PluginInstallState::Installed,
        i.uninstall_retry_count == 0,
        i.uninstall_last_error is None,
{
    let root = join_path(plugins_dir, manifest.id.as_str());
    let manifest_path = join_path(root.as_str(), manifest_file_name);
    InstalledPlugin {
        id: manifest.id.clone(),
        name: manifest.name.clone(),
        version: manifest.version.clone(),
        root_dir: root,
        manifest_path,
        component_count: manifest.component_count,
        install_state: PluginInstallState::Installed,
        uninstall_retry_count: 0,
        uninstall_last_error: None,
    }
}

/// Where an install that puts a staged plugin root in place stands.
#[derive(Debug)]
pub enum InstallStage {
    /// The new root is staged; whether a root is installed under the id is
    /// being asked.
    Staged,
    /// The installed root is being moved aside as a backup.
    BackingUp,
    /// The staged root is being moved into place; `backup` says whether the
    /// old root is kept aside.
    Promoting { backup: bool },
    /// Moving the staged root failed with `error`; it is being removed.
    DiscardingStaged { backup: bool, error: String },
    /// The receipt is being written into the new root.
    WritingReceipt { backup: bool },
    /// The receipt could not be written (`error`); the new root is being
    /// removed so that the backup can go back.
    RemovingNew { error: String },
    /// The backup is being moved back after `error`; `receipt` says whether
    /// it was the receipt that could not be written.
    Restoring { error: String, receipt: bool },
    /// The new root is in place; the backup is being removed.
    RemovingBackup,
    /// The backup could not be removed; an uninstall marker is being written
    /// into it.
    MarkingBackup,
    /// The install has ended.
    Done,
}

/// What the outside world answered to the last action.
#[derive(Debug)]
pub enum InstallEvent {
    /// Whether a root is installed under the plugin's id.
    Found(bool),
    Succeeded,
    Failed(String),
}

/// What the caller does next.
#[derive(Debug)]
pub enum InstallAction {
    /// Move the installed root aside as the backup.
    BackupExisting,
    /// Move the staged root into place.
    Promote,
    /// Remove the staged root.
    RemoveStaged,
    /// Remove the newly placed root.
    RemoveNewRoot,
    /// Move the backup back into place.
    RestoreBackup,
    /// Write the install receipt into the new root.
    WriteReceipt,
    /// Remove the backup.
    RemoveBackup,
    /// Write an uninstall marker with `error` into the backup.
    MarkBackup { error: String },
    /// Stop: the install succeeded, or failed with this report.
    Finish(Result<(), String>),
}

/// Whether `event` answers the action that led to `stage`.
pub open spec fn install_event_fits(stage: InstallStage, event: InstallEvent) -> bool {
    match stage {
        InstallStage::Staged => event is Found,
        InstallStage::Done => false,
        _ => !(event is Found),
    }
}

/// A failure report: the failure itself where the backup went back; where
/// moving it back failed too (`rollback`), the failure, placed under the
/// install root where it was the receipt's, and the rollback's failure.
pub open spec fn rollback_report(
    error: Seq<char>,
    receipt: bool,
    rollback: Option<Seq<char>>,
    install_root: Seq<char>,
    backup_root: Seq<char>,
) -> Seq<char> {
    match rollback {
        None => error,
        Some(r) => (if receipt {
            "failed to finalize plugin install receipt under "@ + install_root + ": "@ + error
        } else {
            error
        }) + "; rollback "@ + backup_root + " -> "@ + install_root + " also failed: "@ + r,
    }
}

/// The install's next step. An installed root is moved aside before the
/// staged one takes its place; where promotion fails, the staged root is
/// removed and the backup moved back; where the receipt cannot be written,
/// the new root is removed and the backup moved back; a failed rollback is
/// added to the report. With the new root in place the backup is removed, and
/// where that fails it is marked for a later uninstall. `install_root` and
/// `backup_root` are the paths the reports name.
pub fn install_step(stage: InstallStage, event: InstallEvent, install_root: &str, backup_root: &str) -> (r: (
    InstallStage,
    InstallAction,
))
    requires
        install_event_fits(stage, event),
    ensures
        ({
            let (next, action) = r;
            match stage {
                InstallStage::Staged => match event {
                    InstallEvent::Found(true) => next is BackingUp && action is BackupExisting,
                    _ => next matches InstallStage::Promoting { backup } && !backup && action is Promote,
                },
                InstallStage::BackingUp => match event {
                    InstallEvent::Failed(e) => next is Done && (action matches InstallAction::Finish(
                        Err(m),
                    ) && m@ == e@),
                    _ => next matches InstallStage::Promoting { backup } && backup && action is Promote,
                },
                InstallStage::Promoting { backup } => match event {
                    InstallEvent::Failed(e) => next matches InstallStage::DiscardingStaged {
                        backup: b,
                        error,
                    } && b == backup && error@ == e@ && action is RemoveStaged,
                    _ => next matches InstallStage::WritingReceipt { backup: b } && b == backup
                        && action is WriteReceipt,
                },
                InstallStage::DiscardingStaged { backup, error } => if backup {
                    next matches InstallStage::Restoring { error: e, receipt } && e@ == error@
                        && !receipt && action is RestoreBackup
                } else {
                    next is Done && (action matches InstallAction::Finish(Err(m)) && m@ == error@)
                },
                InstallStage::WritingReceipt { backup } => match event {
                    InstallEvent::Failed(e) => if backup {
                        next matches InstallStage::RemovingNew { error } && error@ == e@
                            && action is RemoveNewRoot
                    } else {
                        next is Done && (action matches InstallAction::Finish(Err(m)) && m@ == e@)
                    },
                    _ => if backup {
                        next is RemovingBackup && action is RemoveBackup
                    } else {
                        next is Done && action matches InstallAction::Finish(Ok(()))
                    },
                },
                InstallStage::RemovingNew { error } => next matches InstallStage::Restoring {
                    error: e,
                    receipt,
                } && e@ == error@ && receipt && action is RestoreBackup,
                InstallStage::Restoring { error, receipt } => next is Done && (action matches InstallAction::Finish(
                    Err(m),
                ) && m@ == rollback_report(
                    error@,
                    receipt,
                    match event {
                        InstallEvent::Failed(f) => Some(f@),
                        _ => None,
                    },
                    install_root@,
                    backup_root@,
                )),
                InstallStage::RemovingBackup => match event {
                    InstallEvent::Failed(e) => next is MarkingBackup && (action matches InstallAction::MarkBackup {
                        error,
                    } && error@ == e@),
                    _ => next is Done && action matches InstallAction::Finish(Ok(())),
                },
                InstallStage::MarkingBackup => next is Done && match event {
                    InstallEvent::Failed(e) => action matches InstallAction::Finish(Err(m)) && m@ == e@,
                    _ => action matches InstallAction::Finish(Ok(())),
                },
                InstallStage::Done => false,
            }
        }),
{
    match stage {
        InstallStage::Staged => match event {
            InstallEvent::Found(true) => (InstallStage::BackingUp, InstallAction::BackupExisting),
            _ => (InstallStage::Promoting { backup: false }, InstallAction::Promote),
        },
        InstallStage::BackingUp => match event {
            InstallEvent::Failed(e) => (InstallStage::Done, InstallAction::Finish(Err(e))),
            _ => (InstallStage::Promoting { backup: true }, InstallAction::Promote),
        },
        InstallStage::Promoting { backup } => match event {
            InstallEvent::Failed(e) => (
                InstallStage::DiscardingStaged { backup, error: e },
                InstallAction::RemoveStaged,
            ),
            _ => (InstallStage::WritingReceipt { backup }, InstallAction::WriteReceipt),
        },
        InstallStage::DiscardingStaged { backup, error } => {
            if backup {
                (InstallStage::Restoring { error, receipt: false }, InstallAction::RestoreBackup)
            } else {
                (InstallStage::Done, InstallAction::Finish(Err(error)))
            }
        },
        InstallStage::WritingReceipt { backup } => match event {
            InstallEvent::Failed(e) => {
                if backup {
                    (InstallStage::RemovingNew { error: e }, InstallAction::RemoveNewRoot)
                } else {
                    (InstallStage::Done, InstallAction::Finish(Err(e)))
                }
            },
            _ => {
                if backup {
                    (InstallStage::RemovingBackup, InstallAction::RemoveBackup)
                } else {
                    (InstallStage::Done, InstallAction::Finish(Ok(())))
                }
            },
        },
        InstallStage::RemovingNew { error } => (
            InstallStage::Restoring { error, receipt: true },
            InstallAction::RestoreBackup,
        ),
        InstallStage::Restoring { error, receipt } => match event {
            InstallEvent::Failed(f) => {
                let mut v: Vec<char> = Vec::new();
                if receipt {
                    push_str(&mut v, "failed to finalize plugin install receipt under ");
                    push_str(&mut v, install_root);
                    push_str(&mut v, ": ");
                }
                push_str(&mut v, error.as_str());
                push_str(&mut v, "; rollback ");
                push_str(&mut v, backup_root);
                push_str(&mut v, " -> ");
                push_str(&mut v, install_root);
                push_str(&mut v, " also failed: ");
                push_str(&mut v, f.as_str());
                let m = string_of(&v);
                assert(m@ =~= rollback_report(error@, receipt, Some(f@), install_root@, backup_root@));
                (InstallStage::Done, InstallAction::Finish(Err(m)))
            },
            _ => (InstallStage::Done, InstallAction::Finish(Err(error))),
        },
        InstallStage::RemovingBackup => match event {
            InstallEvent::Failed(e) => (InstallStage::MarkingBackup, InstallAction::MarkBackup { error: e }),
            _ => (InstallStage::Done, InstallAction::Finish(Ok(()))),
        },
        InstallStage::MarkingBackup => match event {
            InstallEvent::Failed(e) => (InstallStage::Done, InstallAction::Finish(Err(e))),
            _ => (InstallStage::Done, InstallAction::Finish(Ok(()))),
        },
        InstallStage::Done => (InstallStage::Done, InstallAction::Finish(Ok(()))),
    }
}

/// A manifest file found in an unpacked artifact that reads as a manifest.
#[derive(Debug)]
pub struct ManifestCandidate {
    pub path: String,
    pub manifest: WasmPluginManifest,
}

/// A manifest file found in an unpacked artifact that does not read, and why.
#[derive(Debug)]
pub struct InvalidManifestCandidate {
    pub path: String,
    pub error: String,
}

/// How an invalid candidate is described: `<path> => <error>`.
pub open spec fn invalid_detail(c: InvalidManifestCandidate) -> Seq<char> {
    c.path@ + " => "@ + c.error@
}

/// The text an artifact without exactly one valid manifest is refused with.
pub open spec fn manifest_selection_error(valid_ids: Seq<Seq<char>>, invalid: Seq<InvalidManifestCandidate>, artifact: Seq<char>) -> Seq<char> {
    if valid_ids.len() == 0 {
        if invalid.len() == 0 {
            "no valid wasm plugin manifest found in artifact: "@ + artifact
        } else {
            "no valid wasm plugin manifest found in artifact: "@ + artifact
                + "; invalid manifest candidates: "@ + join_with(
                invalid.take(if invalid.len() < 3 { invalid.len() as int } else { 3 }).map_values(
                    |c: InvalidManifestCandidate| invalid_detail(c),
                ),
                " | "@,
            )
        }
    } else {
        "artifact contains multiple plugin manifests ("@ + join_with(valid_ids, ", "@)
            + "); one artifact must contain exactly one plugin"@
    }
}

/// The ids of the valid candidates.
pub open spec fn candidate_ids(valid: Seq<ManifestCandidate>) -> Seq<Seq<char>> {
    valid.map_values(|c: ManifestCandidate| c.manifest.id@)
}

/// Picks the one valid manifest of an artifact; none, or more than one, is
/// refused with a text that lists what was found.
pub fn select_single_manifest(valid: Vec<ManifestCandidate>, invalid: &Vec<InvalidManifestCandidate>, artifact: &str) -> (r: Result<ManifestCandidate, String>)
    ensures
        valid@.len() == 1 ==> r == Ok::<ManifestCandidate, String>(valid@[0]),
        valid@.len() != 1 ==> (r matches Err(e) && e@ == manifest_selection_error(
            candidate_ids(valid@),
            invalid@,
            artifact@,
        )),
{
    let ghost valid0 = valid@;
    if valid.len() == 1 {
        let mut valid = valid;
        let c = valid.pop().unwrap();
        assert(c == valid0[0]);
        return Ok(c);
    }
    let mut v: Vec<char> = Vec::new();
    if valid.len() == 0 {
        push_str(&mut v, "no valid wasm plugin manifest found in artifact: ");
        push_str(&mut v, artifact);
        if invalid.len() > 0 {
            push_str(&mut v, "; invalid manifest candidates: ");
            let n: usize = if invalid.len() < 3 {
                invalid.len()
            } else {
                3
            };
            let ghost parts = invalid@.take(n as int).map_values(
                |c: InvalidManifestCandidate| invalid_detail(c),
            );
            let ghost v0 = v@;
            let mut i: usize = 0;
            while i < n
                invariant
                    0 < n <= invalid@.len(),
                    i <= n,
                    parts == invalid@.take(n as int).map_values(
                        |c: InvalidManifestCandidate| invalid_detail(c),
                    ),
                    v@ == v0 + join_with(parts.take(i as int), " | "@),
                decreases n - i,
            {
                let ghost before = v@;
                if i > 0 {
                    push_str(&mut v, " | ");
                }
                push_str(&mut v, invalid[i].path.as_str());
                push_str(&mut v, " => ");
                push_str(&mut v, invalid[i].error.as_str());
                proof {
                    let t = parts.take(i + 1);
                    assert(t.drop_last() =~= parts.take(i as int));
                    assert(t.last() == invalid_detail(invalid@[i as int]));
                    if i == 0 {
                        assert(parts.take(0) =~= Seq::<Seq<char>>::empty());
                        assert(v@ =~= v0 + join_with(t, " | "@));
                    } else {
                        assert(v@ =~= v0 + join_with(t, " | "@));
                    }
                }
                i = i + 1;
            }
            assert(parts.take(n as int) =~= parts);
        }
    } else {
        push_str(&mut v, "artifact contains multiple plugin manifests (");
        let ghost ids = candidate_ids(valid@);
        let ghost v0 = v@;
        let mut i: usize = 0;
        while i < valid.len()
            invariant
                1 < valid@.len(),
                i <= valid@.len(),
                ids == candidate_ids(valid@),
                v@ == v0 + join_with(ids.take(i as int), ", "@),
            decreases valid@.len() - i,
        {
            if i > 0 {
                push_str(&mut v, ", ");
            }
            push_str(&mut v, valid[i].manifest.id.as_str());
            proof {
                let t = ids.take(i + 1);
                assert(t.drop_last() =~= ids.take(i as int));
                assert(t.last() == valid@[i as int].manifest.id@);
                if i == 0 {
                    assert(ids.take(0) =~= Seq::<Seq<char>>::empty());
                }
                assert(v@ =~= v0 + join_with(t, ", "@));
            }
            i = i + 1;
        }
        assert(ids.take(valid@.len() as int) =~= ids);
        push_str(&mut v, "); one artifact must contain exactly one plugin");
    }
    assert(v@ =~= manifest_selection_error(candidate_ids(valid@), invalid@, artifact@));
    Err(string_of(&v))
}

/// A plugin library found in an unpacked artifact, with the manifest that
/// inspecting it gave.
#[derive(Debug)]
pub struct LibraryCandidate {
    pub path: String,
    pub manifest: PluginManifest,
}

/// The text an artifact without exactly one plugin library is refused with.
pub open spec fn library_selection_error(ids: Seq<Seq<char>>, artifact: Seq<char>) -> Seq<char> {
    if ids.len() == 0 {
        "no valid StellaTune plugin library found in artifact: "@ + artifact
    } else {
        "artifact contains multiple StellaTune plugins ("@ + join_with(ids, ", "@)
            + "); one artifact must contain exactly one plugin"@
    }
}

/// Picks the one plugin library of an artifact; none, or more than one, is
/// refused, the latter with the ids of the plugins found.
pub fn select_single_library(valid: Vec<LibraryCandidate>, artifact: &str) -> (r: Result<
    LibraryCandidate,
    String,
>)
    ensures
        valid@.len() == 1 ==> r == Ok::<LibraryCandidate, String>(valid@[0]),
        valid@.len() != 1 ==> (r matches Err(e) && e@ == library_selection_error(
            valid@.map_values(|c: LibraryCandidate| c.manifest.id@),
            artifact@,
        )),
{
    let ghost valid0 = valid@;
    let ghost ids = valid@.map_values(|c: LibraryCandidate| c.manifest.id@);
    if valid.len() == 1 {
        let mut valid = valid;
        let c = valid.pop().unwrap();
        assert(c == valid0[0]);
        return Ok(c);
    }
    let mut v: Vec<char> = Vec::new();
    if valid.len() == 0 {
        push_str(&mut v, "no valid StellaTune plugin library found in artifact: ");
        push_str(&mut v, artifact);
    } else {
        push_str(&mut v, "artifact contains multiple StellaTune plugins (");
        let ghost v0 = v@;
        let mut i: usize = 0;
        while i < valid.len()
            invariant
                1 < valid@.len(),
                i <= valid@.len(),
                ids == valid@.map_values(|c: LibraryCandidate| c.manifest.id@),
                v@ == v0 + join_with(ids.take(i as int), ", "@),
            decreases valid@.len() - i,
        {
            let ghost t = ids.take(i + 1);
            assert(t.drop_last() =~= ids.take(i as int));
            assert(t.last() == valid@[i as int].manifest.id@);
            if i > 0 {
                push_str(&mut v, ", ");
            }
            push_str(&mut v, valid[i].manifest.id.as_str());
            if i == 0 {
                assert(ids.take(0) =~= Seq::<Seq<char>>::empty());
            }
            assert(v@ =~= v0 + join_with(t, ", "@));
            i = i + 1;
        }
        assert(ids.take(valid@.len() as int) =~= ids);
        push_str(&mut v, "); one artifact must contain exactly one plugin");
    }
    let e = string_of(&v);
    assert(e@ =~= library_selection_error(ids, artifact@));
    Err(e)
}

/// A character that any platform reads as part of a plain file name: an
/// ASCII letter or digit, `_` or `-`.
pub open spec fn is_plain_char(c: char) -> bool {
    ('a' <= c <= 'z') || ('A' <= c <= 'Z') || ('0' <= c <= '9') || c == '_' || c == '-'
}

/// Plain names separated by single `/`: every platform reads it as these
/// normal components, in order, and no other.
pub open spec fn is_plain_relative(s: Seq<char>) -> bool {
    &&& s.len() > 0
    &&& is_plain_char(s[0])
    &&& is_plain_char(s.last())
    &&& forall|k: int| 0 <= k < s.len() ==> (is_plain_char(#[trigger] s[k]) || s[k] == '/')
    &&& forall|k: int| 0 <= k < s.len() - 1 ==> !(#[trigger] s[k] == '/' && s[k + 1] == '/')
}

/// A base path every platform reads the same way: plain names and `/`, with
/// a name in it, not starting with two `/` (which Windows reads as a network
/// prefix).
pub open spec fn is_plain_base(s: Seq<char>) -> bool {
    &&& s.len() > 0
    &&& forall|k: int| 0 <= k < s.len() ==> (is_plain_char(#[trigger] s[k]) || s[k] == '/')
    &&& exists|k: int| 0 <= k < s.len() && is_plain_char(#[trigger] s[k])
    &&& !(s.len() > 1 && s[0] == '/' && s[1] == '/')
}

/// Calls `std::path::Path::strip_prefix` and gives what is left of `path`
/// once the components of `base` are taken off its front, as text; none
/// where they do not begin it. What counts as a component depends on the
/// platform's path rules; the contract states the case that every platform
/// reads alike: `path` is a plain base, `/` and plain names, and what is left
/// is those names as written (`Components::as_path` keeps the remaining
/// text and trims only separators at its ends).
#[verifier::external_body]
fn path_strip_prefix(path: &str, base: &str) -> (r: Option<String>)
    ensures
        match r {
            Some(t) => forall|rest: Seq<char>|
                is_plain_base(base@) && is_plain_relative(rest) && #[trigger] (base@ + seq!['/'] + rest)
                    == path@ ==> t@ == rest,
            None => forall|rest: Seq<char>|
                !(is_plain_base(base@) && is_plain_relative(rest) && #[trigger] (base@ + seq!['/'] + rest)
                    == path@),
        },
{
    std::path::Path::new(path).strip_prefix(base).ok().map(|p| p.to_string_lossy().into_owned())
}

/// A relative path with every `\` written as `/`.
pub open spec fn forward_slashes(s: Seq<char>) -> Seq<char> {
    s.map_values(|c: char| if c == '\\' { '/' } else { c })
}

/// The library path a receipt records, from what is left of the library's
/// path under the staging root (`stripped`; none where it does not lie under
/// it).
pub fn receipt_library_path(stripped: Option<String>, library_path: &str) -> (r: Result<String, String>)
    ensures
        match stripped {
            Some(t) => r matches Ok(p) && p@ == forward_slashes(t@),
            None => r matches Err(e) && e@ == "failed to derive library_rel_path from "@ + library_path@,
        },
{
    match stripped {
        None => {
            let mut v: Vec<char> = Vec::new();
            push_str(&mut v, "failed to derive library_rel_path from ");
            push_str(&mut v, library_path);
            Err(string_of(&v))
        },
        Some(t) => {
            let c = chars_of(t.as_str());
            let mut v: Vec<char> = Vec::new();
            let mut i: usize = 0;
            while i < c.len()
                invariant
                    i <= c@.len(),
                    c@ == t@,
                    v@ == forward_slashes(c@.take(i as int)),
                decreases c@.len() - i,
            {
                if c[i] == '\\' {
                    v.push('/');
                } else {
                    v.push(c[i]);
                }
                i = i + 1;
                assert(v@ =~= forward_slashes(c@.take(i as int)));
            }
            assert(c@.take(c@.len() as int) =~= c@);
            Ok(string_of(&v))
        },
    }
}

/// The library path a receipt records for a library found at
/// `library_path` in an artifact unpacked into `staging_root`: the rest of
/// the path under the root (by the platform's path rules), written with `/`.
pub fn library_rel_path(staging_root: &str, library_path: &str) -> (r: Result<String, String>)
    ensures
        r matches Ok(p) ==> !p@.contains('\\'),
        r matches Err(e) ==> e@ == "failed to derive library_rel_path from "@ + library_path@,
        forall|rest: Seq<char>|
            is_plain_base(staging_root@) && is_plain_relative(rest) && #[trigger] (staging_root@
                + seq!['/'] + rest) == library_path@ ==> (r matches Ok(p) && p@ == rest),
{
    let stripped = path_strip_prefix(library_path, staging_root);
    assert forall|rest: Seq<char>|
        is_plain_base(staging_root@) && is_plain_relative(rest) && #[trigger] (staging_root@
            + seq!['/'] + rest) == library_path@ implies forward_slashes(rest) == rest by {
        assert(forward_slashes(rest) =~= rest);
    }
    let r = receipt_library_path(stripped, library_path);
    assert(r matches Ok(p) ==> !p@.contains('\\')) by {
        if r is Ok && stripped is Some {
            let p = r->Ok_0@;
            let t = stripped->Some_0@;
            if p.contains('\\') {
                let k = choose|k: int| 0 <= k < p.len() && p[k] == '\\';
                assert(p[k] == (if t[k] == '\\' { '/' } else { t[k] }));
            }
        }
    }
    r
}

/// The plugin id of an unpacked artifact: that of its one valid manifest.
pub fn inspect_artifact_plugin_id(valid: Vec<ManifestCandidate>, invalid: &Vec<InvalidManifestCandidate>, artifact: &str) -> (r: Result<String, String>)
    ensures
        valid@.len() == 1 ==> (r matches Ok(id) && id@ == valid@[0].manifest.id@),
        valid@.len() != 1 ==> (r matches Err(e) && e@ == manifest_selection_error(
            candidate_ids(valid@),
            invalid@,
            artifact@,
        )),
{
    match select_single_manifest(valid, invalid, artifact) {
        Ok(c) => Ok(c.manifest.id),
        Err(e) => Err(e),
    }
}

/// Whether an archive entry may be unpacked: not absolute, and without a
/// `..` component, by the path rules of Windows where `windows` holds, else
/// of Unix.
pub fn archive_entry_path_allowed(name: &str, windows: bool) -> (r: bool)
    ensures
        r == (!is_absolute_on(windows, name@) && !has_parent_component_on(windows, name@)),
{
    let v = chars_of(name);
    if is_absolute_exec(windows, &v) {
        return false;
    }
    !has_parent_component_exec(windows, &v)
}

/// The name of a staging directory beside the installed plugins:
/// `.<purpose>-<plugin id>-<pid>-<ms>`, then `-<attempt>` where one is given.
pub open spec fn staging_dir_name_text(purpose: Seq<char>, plugin_id: Seq<char>, pid: u32, now_ms: u64, attempt: Option<u32>) -> Seq<char> {
    "."@ + purpose + "-"@ + plugin_id + "-"@ + dec_digits(pid as nat) + "-"@ + dec_digits(now_ms as nat)
        + match attempt {
        Some(a) => "-"@ + dec_digits(a as nat),
        None => Seq::<char>::empty(),
    }
}

pub fn staging_dir_name(purpose: &str, plugin_id: &str, pid: u32, now_ms: u64, attempt: Option<u32>) -> (s: String)
    ensures
        s@ == staging_dir_name_text(purpose@, plugin_id@, pid, now_ms, attempt),
{
    let mut v: Vec<char> = Vec::new();
    push_str(&mut v, ".");
    push_str(&mut v, purpose);
    push_str(&mut v, "-");
    push_str(&mut v, plugin_id);
    push_str(&mut v, "-");
    push_decimal(&mut v, pid as u64);
    push_str(&mut v, "-");
    push_decimal(&mut v, now_ms);
    match attempt {
        Some(a) => {
            push_str(&mut v, "-");
            push_decimal(&mut v, a as u64);
        },
        None => {},
    }
    assert(v@ =~= staging_dir_name_text(purpose@, plugin_id@, pid, now_ms, attempt));
    string_of(&v)
}

/// The index of the last `.` in `p`, or -1.
pub open spec fn last_dot(p: Seq<char>) -> int
    decreases p.len(),
{
    if p.len() == 0 {
        -1
    } else if p.last() == '.' {
        p.len() - 1
    } else {
        last_dot(p.drop_last())
    }
}

/// `Path::extension`: what follows the last `.` of the file name, unless the
/// name has no `.` or only a leading one.
pub open spec fn extension_spec(p: Seq<char>) -> Option<Seq<char>> {
    match file_name_spec(p) {
        None => None,
        Some(f) => if last_dot(f) <= 0 {
            None
        } else {
            Some(f.subrange(last_dot(f) + 1, f.len() as int))
        },
    }
}

proof fn lemma_last_dot_bounds(p: Seq<char>)
    ensures
        -1 <= last_dot(p) < p.len(),
    decreases p.len(),
{
    if p.len() > 0 && p.last() != '.' {
        lemma_last_dot_bounds(p.drop_last());
    }
}

/// The extension of a path (`Path::extension`).
pub fn extension_of(path: &str) -> (r: Option<String>)
    ensures
        match r {
            Some(s) => extension_spec(path@) == Some(s@),
            None => extension_spec(path@) is None,
        },
{
    let name = match file_name_of(path) {
        None => {
            return None;
        },
        Some(n) => n,
    };
    let v = chars_of(name.as_str());
    let n = v.len();
    assert(v@.take(n as int) =~= v@);
    let mut j: usize = n;
    while j > 0 && v[j - 1] != '.'
        invariant
            j <= n == v@.len(),
            last_dot(v@.take(n as int)) == last_dot(v@.take(j as int)),
        decreases j,
    {
        assert(v@.take(j as int).drop_last() =~= v@.take(j - 1));
        assert(v@.take(j as int).last() == v@[j - 1]);
        j = j - 1;
    }
    proof {
        if j > 0 {
            assert(v@.take(j as int).last() == v@[j - 1]);
        }
        assert(last_dot(v@) + 1 == j);
        lemma_last_dot_bounds(v@);
    }
    if j <= 1 {
        return None;
    }
    Some(string_of_range(&v, j, n))
}

/// What an artifact is installed from.
#[derive(Debug, Clone, Copy, PartialEq, Eq, Structural)]
pub enum ArtifactKind {
    Directory,
    Zip,
}

/// The artifact's extension is `zip` in some ASCII case.
pub open spec fn zip_extension(artifact: Seq<char>) -> bool {
    match extension_spec(artifact) {
        Some(x) => lower_s(x) == "zip"@,
        None => false,
    }
}

/// Decides how an artifact is read: a directory as it is, a file only where
/// its extension is `zip` in any ASCII case; a missing artifact, or a file of
/// another kind, is refused.
pub fn artifact_kind(artifact: &str, exists: bool, is_dir: bool) -> (r: Result<ArtifactKind, String>)
    ensures
        !exists ==> (r matches Err(e) && e@ == "artifact not found: "@ + artifact@),
        exists && is_dir ==> r == Ok::<ArtifactKind, String>(ArtifactKind::Directory),
        exists && !is_dir && zip_extension(artifact@) ==> r == Ok::<ArtifactKind, String>(ArtifactKind::Zip),
        exists && !is_dir && !zip_extension(artifact@) ==> (r matches Err(e) && e@
            == "unsupported plugin artifact: "@ + artifact@ + " (expect directory or .zip)"@),
{
    if !exists {
        let mut v: Vec<char> = Vec::new();
        push_str(&mut v, "artifact not found: ");
        push_str(&mut v, artifact);
        return Err(string_of(&v));
    }
    if is_dir {
        return Ok(ArtifactKind::Directory);
    }
    let ext = extension_of(artifact);
    let mut is_zip = false;
    match &ext {
        Some(x) => {
            let xv = chars_of(x.as_str());
            let mut low: Vec<char> = Vec::new();
            let mut i: usize = 0;
            while i < xv.len()
                invariant
                    i <= xv@.len(),
                    low@ == lower_s(xv@.take(i as int)),
                decreases xv@.len() - i,
            {
                low.push(lower_c_exec(xv[i]));
                i = i + 1;
                assert(low@ =~= lower_s(xv@.take(i as int)));
            }
            assert(xv@.take(xv@.len() as int) =~= xv@);
            let zip = chars_of("zip");
            let eq = crate::text::range_eq(&low, 0, low.len(), &zip);
            assert(low@.subrange(0, low@.len() as int) =~= low@);
            is_zip = eq;
        },
        None => {},
    }
    assert(is_zip == zip_extension(artifact@));
    if is_zip {
        return Ok(ArtifactKind::Zip);
    }
    let mut v: Vec<char> = Vec::new();
    push_str(&mut v, "unsupported plugin artifact: ");
    push_str(&mut v, artifact);
    push_str(&mut v, " (expect directory or .zip)");
    Err(string_of(&v))
}

/// The extension of a plugin library on the operating system named `os`
/// (as `std::env::consts::OS` names it): none where the system loads no
/// plugin libraries.
pub open spec fn dynamic_library_ext_spec(os: Seq<char>) -> Seq<char> {
    if os == "windows"@ {
        "dll"@
    } else if os == "linux"@ {
        "so"@
    } else if os == "macos"@ {
        "dylib"@
    } else {
        ""@
    }
}

/// The extension of a plugin library on the operating system `os`.
pub fn dynamic_library_ext(os: &str) -> (r: String)
    ensures
        r@ == dynamic_library_ext_spec(os@),
{
    let o = String::from_str(os);
    if o == String::from_str("windows") {
        String::from_str("dll")
    } else if o == String::from_str("linux") {
        String::from_str("so")
    } else if o == String::from_str("macos") {
        String::from_str("dylib")
    } else {
        String::from_str("")
    }
}

/// Whether two texts are equal ignoring ASCII case.
fn eq_ignore_ascii_case(a: &str, b: &str) -> (r: bool)
    ensures
        r == (lower_s(a@) == lower_s(b@)),
{
    let av = chars_of(a);
    let bv = chars_of(b);
    let la = crate::text::lower_range(&av, 0, av.len());
    let lb = crate::text::lower_range(&bv, 0, bv.len());
    assert(av@.subrange(0, av@.len() as int) =~= av@);
    assert(bv@.subrange(0, bv@.len() as int) =~= bv@);
    let r = crate::text::range_eq(&la, 0, la.len(), &lb);
    assert(la@.subrange(0, la@.len() as int) =~= la@);
    r
}

/// What a native plugin is installed from.
#[derive(Debug, Clone, Copy, PartialEq, Eq, Structural)]
pub enum NativeArtifactKind {
    Zip,
    Library,
}

/// The artifact's extension is the plugin library extension `library_ext`
/// (not empty) in some ASCII case.
pub open spec fn library_extension(artifact: Seq<char>, library_ext: Seq<char>) -> bool {
    library_ext.len() > 0 && match extension_spec(artifact) {
        Some(x) => lower_s(x) == lower_s(library_ext),
        None => false,
    }
}

/// Decides how a native plugin artifact is read: an archive where its
/// extension is `zip`, a library where it is the system's library extension
/// `library_ext`, each in any ASCII case; a missing artifact, or a file of
/// another kind, is refused.
pub fn native_artifact_kind(artifact: &str, exists: bool, library_ext: &str) -> (r: Result<
    NativeArtifactKind,
    String,
>)
    ensures
        !exists ==> (r matches Err(e) && e@ == "artifact not found: "@ + artifact@),
        exists && zip_extension(artifact@) ==> r == Ok::<NativeArtifactKind, String>(NativeArtifactKind::Zip),
        exists && !zip_extension(artifact@) && library_extension(artifact@, library_ext@) ==> r == Ok::<
            NativeArtifactKind,
            String,
        >(NativeArtifactKind::Library),
        exists && !zip_extension(artifact@) && !library_extension(artifact@, library_ext@) ==> (r matches Err(
            e,
        ) && e@ == "unsupported plugin artifact: "@ + artifact@ + " (expect .zip or ."@ + library_ext@
            + ")"@),
{
    if !exists {
        let mut v: Vec<char> = Vec::new();
        push_str(&mut v, "artifact not found: ");
        push_str(&mut v, artifact);
        return Err(string_of(&v));
    }
    let ext = extension_of(artifact);
    match &ext {
        Some(x) => {
            proof {
                reveal_strlit("zip");
            }
            if eq_ignore_ascii_case(x.as_str(), "zip") {
                assert(lower_s("zip"@) =~= "zip"@);
                return Ok(NativeArtifactKind::Zip);
            }
            assert(lower_s("zip"@) =~= "zip"@);
            if library_ext.unicode_len() > 0 && eq_ignore_ascii_case(x.as_str(), library_ext) {
                return Ok(NativeArtifactKind::Library);
            }
        },
        None => {},
    }
    let mut v: Vec<char> = Vec::new();
    push_str(&mut v, "unsupported plugin artifact: ");
    push_str(&mut v, artifact);
    push_str(&mut v, " (expect .zip or .");
    push_str(&mut v, library_ext);
    push_str(&mut v, ")");
    Err(string_of(&v))
}

} // verus!
