use openclaw::plugin::api::{PluginInfo, PluginManifest, PluginPermissions, PluginType};
use openclaw::plugin::manager::PluginManager;

fn sample_manifest() -> PluginManifest {
    PluginManifest {
        id: "test-plugin".into(),
        name: "Test Plugin".into(),
        version: "1.0.0".into(),
        author: Some("Author".into()),
        types: vec![PluginType::RecipeProvider, PluginType::EnvProbe],
        entry: None,
        permissions: PluginPermissions { network: true, filesystem: false },
    }
}

#[test]
fn manifest_to_plugin_info() {
    let manifest = sample_manifest();
    let info: PluginInfo = PluginInfo::from(&manifest);
    assert_eq!(info.id, "test-plugin");
    assert_eq!(info.name, "Test Plugin");
    assert_eq!(info.version, "1.0.0");
    assert!(info.enabled);
    assert_eq!(info.types.len(), 2);
}

#[test]
fn default_permissions_are_restrictive() {
    let perms = PluginPermissions::default();
    assert!(!perms.network);
    assert!(!perms.filesystem);
}

#[test]
fn plugin_type_equality() {
    assert_eq!(PluginType::RecipeProvider, PluginType::RecipeProvider);
    assert_ne!(PluginType::RecipeProvider, PluginType::EnvProbe);
}

#[test]
fn load_then_get_then_unload() {
    let mut pm = PluginManager::new("plugins".to_string());
    assert_eq!(pm.dir(), "plugins");
    assert!(pm.list_plugins().is_empty());
    let info = pm.load_plugin("plugins/test/plugin.toml", sample_manifest()).ok().unwrap();
    assert_eq!(info.id, "test-plugin");
    let got = pm.get_plugin("test-plugin").unwrap();
    assert_eq!(got.name, "Test Plugin");
    assert_eq!(got.author, Some("Author".to_string()));
    assert_eq!(pm.list_plugins().len(), 1);
    // loading the same id again replaces it
    let mut newer = sample_manifest();
    newer.version = "2.0.0".into();
    assert!(pm.load_plugin("p", newer).is_ok());
    assert_eq!(pm.list_plugins().len(), 1);
    assert_eq!(pm.get_plugin("test-plugin").unwrap().version, "2.0.0");
    assert!(pm.unload_plugin("test-plugin").is_ok());
    assert!(pm.get_plugin("test-plugin").is_none());
}

#[test]
fn plugin_errors_name_the_cause() {
    let mut pm = PluginManager::new("plugins".to_string());
    let mut nameless = sample_manifest();
    nameless.id = String::new();
    let err = pm.load_plugin("plugins/x/plugin.toml", nameless).err().unwrap();
    assert_eq!(
        err.to_string(),
        "Plugin error: plugins/x/plugin.toml - plugin id must not be empty"
    );
    assert!(pm.list_plugins().is_empty());
    let err = pm.unload_plugin("ghost").unwrap_err();
    assert_eq!(err.to_string(), "Plugin error: ghost - plugin not found");
}

#[test]
fn load_then_unload_restores_the_list_and_lookups_agree() {
    let mut pm = PluginManager::new("plugins".to_string());
    let mut other = sample_manifest();
    other.id = "other".into();
    assert!(pm.load_plugin("o", other).is_ok());
    let before: Vec<String> = pm.list_plugins().into_iter().map(|i| i.id).collect();
    assert!(pm.load_plugin("p", sample_manifest()).is_ok());
    for info in pm.list_plugins() {
        let got = pm.get_plugin(&info.id).unwrap();
        assert_eq!(got.name, info.name);
        assert_eq!(got.version, info.version);
    }
    assert!(pm.unload_plugin("test-plugin").is_ok());
    let after: Vec<String> = pm.list_plugins().into_iter().map(|i| i.id).collect();
    assert_eq!(before, after);
}
