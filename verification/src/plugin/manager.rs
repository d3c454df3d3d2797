//! The loaded plugins, keyed by plugin id.
use vstd::prelude::*;

use crate::error::AppError;
use crate::plugin::api::{info_of, PluginInfo, PluginManifest};
use crate::task::graph::{last_index_of, lemma_last_index_of};
use crate::text::str_eq;

verus! {

/// The ids of a list of manifests, in order.
pub open spec fn manifest_ids(ms: Seq<PluginManifest>) -> Seq<Seq<char>> {
    ms.map_values(|m: PluginManifest| m.id@)
}

/// Manages locally-installed plugins: the loaded manifests, no two with
/// the same id, and the directory where plugins are installed.
pub struct PluginManager {
    plugins: Vec<PluginManifest>,
    plugin_dir: String,
}

impl View for PluginManager {
    type V = Map<Seq<char>, PluginManifest>;

    /// The loaded manifests by plugin id.
    closed spec fn view(&self) -> Map<Seq<char>, PluginManifest> {
        Map::new(
            |k: Seq<char>| manifest_ids(self.plugins@).contains(k),
            |k: Seq<char>| self.plugins@[last_index_of(manifest_ids(self.plugins@), k)],
        )
    }
}

impl PluginManager {
    /// No two loaded manifests share an id.
    pub closed spec fn well_formed(self) -> bool {
        manifest_ids(self.plugins@).no_duplicates()
    }

    proof fn lemma_view_at(self, i: int)
        requires
            self.well_formed(),
            0 <= i < self.plugins@.len(),
        ensures
            self@.contains_key(self.plugins@[i].id@),
            self@[self.plugins@[i].id@] == self.plugins@[i],
    {
        let k = self.plugins@[i].id@;
        assert(manifest_ids(self.plugins@)[i] == k);
        assert(manifest_ids(self.plugins@).contains(k));
        lemma_last_index_of(manifest_ids(self.plugins@), k);
        let j = last_index_of(manifest_ids(self.plugins@), k);
        assert(manifest_ids(self.plugins@)[j] == k);
        assert(j == i);
    }

    proof fn lemma_view_key(self, k: Seq<char>)
        requires
            self@.contains_key(k),
        ensures
            exists|i: int| 0 <= i < self.plugins@.len() && self.plugins@[i].id@ == k,
    {
        let i = choose|i: int| 0 <= i < manifest_ids(self.plugins@).len() && manifest_ids(self.plugins@)[i] == k;
        assert(self.plugins@[i].id@ == k);
    }

    /// A manager with no plugin loaded, for plugins installed under
    /// `plugin_dir`.
    pub fn new(plugin_dir: String) -> (r: PluginManager)
        ensures
            r.well_formed(),
            r@ == Map::<Seq<char>, PluginManifest>::empty(),
            r.plugin_dir()@ == plugin_dir@,
    {
        let r = PluginManager { plugins: Vec::new(), plugin_dir };
        assert(r@ =~= Map::<Seq<char>, PluginManifest>::empty());
        r
    }

    fn index_of(&self, id: &str) -> (r: Option<usize>)
        requires
            self.well_formed(),
        ensures
            match r {
                Some(i) => i < self.plugins@.len() && self.plugins@[i as int].id@ == id@,
                None => !self@.contains_key(id@),
            },
    {
        let mut i: usize = 0;
        while i < self.plugins.len()
            invariant
                i <= self.plugins@.len(),
                forall|k: int| 0 <= k < i ==> self.plugins@[k].id@ != id@,
            decreases self.plugins@.len() - i,
        {
            if str_eq(self.plugins[i].id.as_str(), id) {
                return Some(i);
            }
            i = i + 1;
        }
        proof {
            if self@.contains_key(id@) {
                self.lemma_view_key(id@);
            }
        }
        None
    }

    /// The directory where plugins are installed.
    pub closed spec fn plugin_dir(self) -> String {
        self.plugin_dir
    }

    /// The directory where plugins are installed.
    pub fn dir(&self) -> (r: &String)
        ensures
            *r == self.plugin_dir(),
    {
        &self.plugin_dir
    }

    /// Information about every loaded plugin, each once.
    pub fn list_plugins(&self) -> (r: Vec<PluginInfo>)
        requires
            self.well_formed(),
        ensures
            lists_plugins(self@, r@),
    {
        let mut r: Vec<PluginInfo> = Vec::new();
        let mut i: usize = 0;
        while i < self.plugins.len()
            invariant
                i <= self.plugins@.len(),
                self.well_formed(),
                r@.len() == i,
                forall|k: int| 0 <= k < i ==> info_of(#[trigger] r@[k], self.plugins@[k]),
            decreases self.plugins@.len() - i,
        {
            r.push(PluginInfo::from(&self.plugins[i]));
            i = i + 1;
        }
        proof {
            assert(r@.map_values(|x: PluginInfo| x.id@) =~= manifest_ids(self.plugins@));
            assert forall|k: int| 0 <= k < r@.len() implies info_of(#[trigger] r@[k], self@[r@[k].id@]) by {
                self.lemma_view_at(k);
            }
        }
        r
    }

    /// Information about the loaded plugin with the given id.
    pub fn get_plugin(&self, id: &str) -> (r: Option<PluginInfo>)
        requires
            self.well_formed(),
        ensures
            looks_up(self@, id@, r),
    {
        match self.index_of(id) {
            Some(i) => {
                proof {
                    self.lemma_view_at(i as int);
                }
                Some(PluginInfo::from(&self.plugins[i]))
            },
            None => None,
        }
    }

    /// Load a plugin from its manifest, read from `path`: a manifest with an
    /// empty id is refused; otherwise it is added, replacing a loaded plugin
    /// with the same id, and its information is returned.
    pub fn load_plugin(&mut self, path: &str, manifest: PluginManifest) -> (r: Result<PluginInfo, AppError>)
        requires
            old(self).well_formed(),
        ensures
            final(self).well_formed(),
            final(self).plugin_dir() == old(self).plugin_dir(),
            manifest.id@.len() == 0 ==> final(self)@ == old(self)@ && (r matches Err(
                AppError::PluginError { plugin_id, message },
            ) && plugin_id@ == path@ && message@ == "plugin id must not be empty"@),
            manifest.id@.len() > 0 ==> final(self)@ == old(self)@.insert(manifest.id@, manifest) && (r matches Ok(info) && info_of(info, manifest)),
    {
        if manifest.id.as_str().is_empty() {
            return Err(AppError::PluginError {
                plugin_id: path.to_owned(),
                message: "plugin id must not be empty".to_owned(),
            });
        }
        let info = PluginInfo::from(&manifest);
        self.save(manifest);
        Ok(info)
    }

    /// Add a manifest, or replace the one with the same id.
    fn save(&mut self, recipe: PluginManifest)
        requires
            old(self).well_formed(),
        ensures
            final(self).well_formed(),
            final(self).plugin_dir() == old(self).plugin_dir(),
            final(self)@ == old(self)@.insert(recipe.id@, recipe),
    {
        let ghost before = *self;
        let ghost key = recipe.id@;
        match self.index_of(recipe.id.as_str()) {
            Some(i) => {
                self.plugins.set(i, recipe);
                proof {
                    assert(self.plugins@ == before.plugins@.update(i as int, recipe));
                    assert(manifest_ids(self.plugins@) =~= manifest_ids(before.plugins@));
                    assert(self@ =~= before@.insert(key, self.plugins@[i as int])) by {
                        assert forall|k: Seq<char>| self@.contains_key(k) implies self@[k] == before@.insert(
                            key,
                            self.plugins@[i as int],
                        )[k] by {
                            self.lemma_view_key(k);
                            let j = choose|j: int| 0 <= j < self.plugins@.len() && self.plugins@[j].id@ == k;
                            self.lemma_view_at(j);
                            if j != i {
                                assert(manifest_ids(self.plugins@)[j] != manifest_ids(self.plugins@)[i as int]);
                                assert(self.plugins@[j] == before.plugins@[j]);
                                before.lemma_view_at(j);
                            }
                        }
                        assert forall|k: Seq<char>| before@.insert(key, self.plugins@[i as int]).contains_key(k) implies self@.contains_key(k) by {
                            if k != key {
                                before.lemma_view_key(k);
                                let j = choose|j: int| 0 <= j < before.plugins@.len() && before.plugins@[j].id@ == k;
                                assert(manifest_ids(self.plugins@)[j] == k);
                            } else {
                                assert(manifest_ids(self.plugins@)[i as int] == k);
                            }
                        }
                    }
                }
            },
            None => {
                self.plugins.push(recipe);
                proof {
                    let n = before.plugins@.len();
                    assert(manifest_ids(self.plugins@) =~= manifest_ids(before.plugins@).push(key));
                    assert(manifest_ids(self.plugins@).no_duplicates()) by {
                        assert forall|a: int, b: int| 0 <= a < b < manifest_ids(self.plugins@).len() implies manifest_ids(self.plugins@)[a]
                            != manifest_ids(self.plugins@)[b] by {
                            if b == n {
                                before.lemma_view_at(a);
                            }
                        }
                    }
                    assert(self@ =~= before@.insert(key, self.plugins@[n as int])) by {
                        assert forall|k: Seq<char>| self@.contains_key(k) implies self@[k] == before@.insert(
                            key,
                            self.plugins@[n as int],
                        )[k] by {
                            self.lemma_view_key(k);
                            let j = choose|j: int| 0 <= j < self.plugins@.len() && self.plugins@[j].id@ == k;
                            self.lemma_view_at(j);
                            if j != n {
                                before.lemma_view_at(j);
                            }
                        }
                        assert forall|k: Seq<char>| before@.insert(key, self.plugins@[n as int]).contains_key(k) implies self@.contains_key(k) by {
                            if k != key {
                                before.lemma_view_key(k);
                                let j = choose|j: int| 0 <= j < before.plugins@.len() && before.plugins@[j].id@ == k;
                                assert(manifest_ids(self.plugins@)[j] == k);
                            } else {
                                assert(manifest_ids(self.plugins@)[n as int] == k);
                            }
                        }
                    }
                }
            },
        }
    }

    /// Unload (remove) the plugin with the given id; it is an error when
    /// none is loaded.
    pub fn unload_plugin(&mut self, id: &str) -> (r: Result<(), AppError>)
        requires
            old(self).well_formed(),
        ensures
            final(self).well_formed(),
            final(self).plugin_dir() == old(self).plugin_dir(),
            old(self)@.contains_key(id@) ==> r is Ok && final(self)@ == old(self)@.remove(id@),
            !old(self)@.contains_key(id@) ==> final(self)@ == old(self)@ && (r matches Err(
                AppError::PluginError { plugin_id, message },
            ) && plugin_id@ == id@ && message@ == "plugin not found"@),
    {
        let ghost before = *self;
        match self.index_of(id) {
            Some(i) => {
                proof {
                    before.lemma_view_at(i as int);
                }
                self.plugins.remove(i);
                proof {
                    let ids0 = manifest_ids(before.plugins@);
                    assert(manifest_ids(self.plugins@) =~= ids0.remove(i as int));
                    assert(manifest_ids(self.plugins@).no_duplicates()) by {
                        assert forall|a: int, b: int| 0 <= a < b < manifest_ids(self.plugins@).len() implies manifest_ids(self.plugins@)[a]
                            != manifest_ids(self.plugins@)[b] by {
                            let a0 = if a < i { a } else { a + 1 };
                            let b0 = if b < i { b } else { b + 1 };
                            assert(manifest_ids(self.plugins@)[a] == ids0[a0]);
                            assert(manifest_ids(self.plugins@)[b] == ids0[b0]);
                        }
                    }
                    assert(self@ =~= before@.remove(id@)) by {
                        assert forall|k: Seq<char>| self@.contains_key(k) implies before@.remove(id@).contains_key(k) && self@[k] == before@[k] by {
                            self.lemma_view_key(k);
                            let j = choose|j: int| 0 <= j < self.plugins@.len() && self.plugins@[j].id@ == k;
                            self.lemma_view_at(j);
                            let j0 = if j < i { j } else { j + 1 };
                            assert(self.plugins@[j] == before.plugins@[j0]);
                            before.lemma_view_at(j0);
                            assert(ids0[j0] != ids0[i as int]);
                        }
                        assert forall|k: Seq<char>| before@.remove(id@).contains_key(k) implies self@.contains_key(k) by {
                            before.lemma_view_key(k);
                            let j = choose|j: int| 0 <= j < before.plugins@.len() && before.plugins@[j].id@ == k;
                            assert(j != i);
                            let j1 = if j < i { j } else { j - 1 };
                            assert(manifest_ids(self.plugins@)[j1] == k);
                        }
                    }
                }
                Ok(())
            },
            None => Err(AppError::PluginError {
                plugin_id: id.to_owned(),
                message: "plugin not found".to_owned(),
            }),
        }
    }
}

/// `r` lists the plugins of `m`: each loaded id once, with the information
/// of its manifest.
pub open spec fn lists_plugins(m: Map<Seq<char>, PluginManifest>, r: Seq<PluginInfo>) -> bool {
    &&& forall|k: Seq<char>| r.map_values(|x: PluginInfo| x.id@).contains(k) <==> m.contains_key(k)
    &&& r.map_values(|x: PluginInfo| x.id@).no_duplicates()
    &&& forall|i: int| 0 <= i < r.len() ==> info_of(#[trigger] r[i], m[r[i].id@])
}

/// `x` is what looking `id` up among the plugins of `m` gives: the
/// information of its manifest, or nothing when no plugin has that id.
pub open spec fn looks_up(m: Map<Seq<char>, PluginManifest>, id: Seq<char>, x: Option<PluginInfo>) -> bool {
    match x {
        Some(i) => m.contains_key(id) && info_of(i, m[id]),
        None => !m.contains_key(id),
    }
}

/// Two pieces of plugin information with the same contents.
pub open spec fn same_info(a: PluginInfo, b: PluginInfo) -> bool {
    &&& a.id == b.id
    &&& a.name == b.name
    &&& a.version == b.version
    &&& a.author == b.author
    &&& a.types@ == b.types@
    &&& a.enabled == b.enabled
}

/// Listing and looking up agree: an id is found exactly when the list
/// holds it, and then the list shows the same information.
pub proof fn law_list_and_get_agree(
    m: Map<Seq<char>, PluginManifest>,
    r: Seq<PluginInfo>,
    id: Seq<char>,
    x: Option<PluginInfo>,
)
    requires
        lists_plugins(m, r),
        looks_up(m, id, x),
    ensures
        x is Some <==> exists|k: int| 0 <= k < r.len() && (#[trigger] r[k]).id@ == id,
        forall|k: int| 0 <= k < r.len() && (#[trigger] r[k]).id@ == id ==> (x matches Some(i) && same_info(i, r[k])),
{
    let ids = r.map_values(|p: PluginInfo| p.id@);
    if m.contains_key(id) {
        assert(ids.contains(id));
        let k = choose|k: int| 0 <= k < ids.len() && ids[k] == id;
        assert(r[k].id@ == id);
    }
    assert forall|k: int| 0 <= k < r.len() && (#[trigger] r[k]).id@ == id implies m.contains_key(id) by {
        assert(ids[k] == id);
    }
}

/// Loading a plugin whose id is not loaded, then unloading it, leaves the
/// loaded plugins as they were.
pub proof fn law_load_then_unload_restores(m: Map<Seq<char>, PluginManifest>, manifest: PluginManifest)
    requires
        !m.contains_key(manifest.id@),
    ensures
        m.insert(manifest.id@, manifest).remove(manifest.id@) == m,
{
    assert(m.insert(manifest.id@, manifest).remove(manifest.id@) =~= m);
}

/// After a plugin is loaded, looking up its id finds it, and every other
/// id is as before.
pub proof fn law_get_after_load(
    before: Map<Seq<char>, PluginManifest>,
    after: Map<Seq<char>, PluginManifest>,
    manifest: PluginManifest,
    other: Seq<char>,
)
    requires
        after == before.insert(manifest.id@, manifest),
    ensures
        after.contains_key(manifest.id@) && after[manifest.id@] == manifest,
        other != manifest.id@ ==> (after.contains_key(other) == before.contains_key(other) && after[other] == before[other]),
{
}

/// After a plugin is unloaded, its id is gone and every other id is as
/// before.
pub proof fn law_get_after_unload(
    before: Map<Seq<char>, PluginManifest>,
    after: Map<Seq<char>, PluginManifest>,
    id: Seq<char>,
    other: Seq<char>,
)
    requires
        after == before.remove(id),
    ensures
        !after.contains_key(id),
        other != id ==> (after.contains_key(other) == before.contains_key(other) && after[other] == before[other]),
{
}

} // verus!
