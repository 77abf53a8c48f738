use std::any::Any;

use evernight::registry::{ComponentRegistry, TagRegistry, TemplateRegistry};

type ComponentFactory = Box<dyn Fn(&[u8]) -> Box<dyn Any>>;
type TemplateFactory = Box<dyn Fn() -> Box<dyn Any>>;

#[derive(Debug, Clone, Copy, PartialEq)]
struct Marker(u32);

#[derive(Debug, Clone, Copy, PartialEq)]
struct Other(u32);

#[test]
fn test_tag_registry() {
    let mut registry = TagRegistry::new();
    let id1 = registry.register("Player");
    let id2 = registry.register("Enemy");
    assert_eq!(registry.id_of("Player"), Some(id1));
    assert_eq!(registry.id_of("Enemy"), Some(id2));
    assert_eq!(registry.name_of(id1), Some("Player"));
    assert_eq!(registry.name_of(id2), Some("Enemy"));
}

#[test]
fn test_duplicate_registration() {
    let mut registry = TagRegistry::new();
    let id1 = registry.register("Player");
    let id2 = registry.register("Player");
    assert_eq!(id1, id2);
    assert_eq!(registry.id_of("Player"), Some(id1));
    assert_eq!(registry.name_of(id1), Some("Player"));
}

#[test]
fn test_nonexistent_lookup() {
    let registry = TagRegistry::new();
    assert_eq!(registry.id_of("Nonexistent"), None);
    assert_eq!(registry.name_of(999), None);
}

#[test]
fn tag_ids_are_dense_in_registration_order() {
    let mut registry = TagRegistry::new();
    assert_eq!(registry.register("a"), 0);
    assert_eq!(registry.register("b"), 1);
    assert_eq!(registry.register("a"), 0);
    assert_eq!(registry.register("c"), 2);
    assert_eq!(registry.name_of(2), Some("c"));
    assert_eq!(registry.name_of(3), None);
}

#[test]
fn component_registry_create_registered() {
    let mut reg: ComponentRegistry<ComponentFactory> = ComponentRegistry::new();
    reg.register("Marker", Box::new(|_| Box::new(Marker(42))));

    let component = reg.create("Marker", &[]);
    assert!(component.is_some());

    let marker = component.unwrap();
    let downcast = marker.downcast_ref::<Marker>();
    assert_eq!(downcast, Some(&Marker(42)));
}

#[test]
fn component_registry_create_unregistered_returns_none() {
    let reg: ComponentRegistry<ComponentFactory> = ComponentRegistry::new();
    assert!(reg.create("Nonexistent", &[]).is_none());
}

#[test]
fn component_registry_overwrite_replaces_factory() {
    let mut reg: ComponentRegistry<ComponentFactory> = ComponentRegistry::new();
    reg.register("Marker", Box::new(|_| Box::new(Marker(1))));
    reg.register("Marker", Box::new(|_| Box::new(Marker(99))));

    let marker = reg.create("Marker", &[]).unwrap();
    let downcast = marker.downcast_ref::<Marker>();
    assert_eq!(downcast, Some(&Marker(99)));
}

#[test]
fn component_registry_registered_names_lists_all() {
    let mut reg: ComponentRegistry<ComponentFactory> = ComponentRegistry::new();
    reg.register("Marker", Box::new(|_| Box::new(Marker(0))));
    reg.register("Other", Box::new(|_| Box::new(Other(0))));

    let mut names: Vec<&str> = reg.registered_names().collect();
    names.sort_unstable();
    assert_eq!(names, vec!["Marker", "Other"]);
}

#[test]
fn component_registry_is_registered() {
    let mut reg: ComponentRegistry<ComponentFactory> = ComponentRegistry::new();
    assert!(!reg.is_registered("Marker"));
    reg.register("Marker", Box::new(|_| Box::new(Marker(0))));
    assert!(reg.is_registered("Marker"));
}

#[test]
fn component_registry_clear_removes_all() {
    let mut reg: ComponentRegistry<ComponentFactory> = ComponentRegistry::new();
    reg.register("Marker", Box::new(|_| Box::new(Marker(0))));
    reg.clear();
    assert_eq!(reg.registered_count(), 0);
    assert!(reg.create("Marker", &[]).is_none());
}

#[test]
fn component_registry_factory_called_per_create() {
    // Each call to create() should return a fresh, independent instance.
    let mut reg: ComponentRegistry<ComponentFactory> = ComponentRegistry::new();
    reg.register("Marker", Box::new(|_| Box::new(Marker(7))));

    let a = reg.create("Marker", &[]).unwrap();
    let b = reg.create("Marker", &[]).unwrap();
    assert_eq!(a.downcast_ref::<Marker>(), Some(&Marker(7)));
    assert_eq!(b.downcast_ref::<Marker>(), Some(&Marker(7)));
}

#[test]
fn component_registry_factory_receives_data_and_names_are_listed() {
    let mut reg: ComponentRegistry<ComponentFactory> = ComponentRegistry::new();
    reg.register("Len", Box::new(|data| Box::new(Marker(data.len() as u32))));
    reg.register("Other", Box::new(|_| Box::new(Other(0))));
    let c = reg.create("Len", &[1, 2, 3]).unwrap();
    assert_eq!(c.downcast_ref::<Marker>(), Some(&Marker(3)));
    assert_eq!(reg.register_names(), vec!["Len".to_string(), "Other".to_string()]);
    assert_eq!(reg.registered_count(), 2);
}

// ── TemplateRegistry ──────────────────────────────────────────────────────

#[test]
fn template_registry_register_and_instantiate() {
    let mut reg: TemplateRegistry<TemplateFactory> = TemplateRegistry::new();
    let id = reg.register(
        "bullet",
        vec![
            Box::new(|| Box::new(Marker(1)) as Box<dyn Any>),
            Box::new(|| Box::new(Other(2)) as Box<dyn Any>),
        ],
    );
    let components = reg.instantiate(id).expect("should return components");
    assert_eq!(components.len(), 2);
    assert_eq!(components[0].downcast_ref::<Marker>(), Some(&Marker(1)));
    assert_eq!(components[1].downcast_ref::<Other>(), Some(&Other(2)));
}

#[test]
fn template_registry_id_of_returns_stable_id() {
    let mut reg: TemplateRegistry<TemplateFactory> = TemplateRegistry::new();
    let id = reg.register("bullet", vec![]);
    assert_eq!(reg.id_of("bullet"), Some(id));
    assert_eq!(reg.id_of("missing"), None);
}

#[test]
fn template_registry_re_register_keeps_id() {
    let mut reg: TemplateRegistry<TemplateFactory> = TemplateRegistry::new();
    let id1 = reg.register("bullet", vec![Box::new(|| Box::new(Marker(1)) as Box<dyn Any>)]);
    let id2 = reg.register("bullet", vec![Box::new(|| Box::new(Marker(99)) as Box<dyn Any>)]);
    assert_eq!(id1, id2, "re-registering same name must reuse the same id");
    let components = reg.instantiate(id1).unwrap();
    assert_eq!(components[0].downcast_ref::<Marker>(), Some(&Marker(99)));
}

#[test]
fn template_registry_unknown_id_returns_none() {
    let reg: TemplateRegistry<TemplateFactory> = TemplateRegistry::new();
    assert!(reg.instantiate(999).is_none());
}

#[test]
fn template_registry_each_instantiate_produces_fresh_instances() {
    let mut reg: TemplateRegistry<TemplateFactory> = TemplateRegistry::new();
    let id = reg.register("bullet", vec![Box::new(|| Box::new(Marker(42)) as Box<dyn Any>)]);
    let a = reg.instantiate(id).unwrap();
    let b = reg.instantiate(id).unwrap();
    // Both should be equal in value, proving independent construction
    assert_eq!(a[0].downcast_ref::<Marker>(), Some(&Marker(42)));
    assert_eq!(b[0].downcast_ref::<Marker>(), Some(&Marker(42)));
}

#[test]
fn template_registry_is_registered() {
    let mut reg: TemplateRegistry<TemplateFactory> = TemplateRegistry::new();
    assert!(!reg.is_registered("bullet"));
    reg.register("bullet", vec![]);
    assert!(reg.is_registered("bullet"));
}

#[test]
fn template_ids_follow_registration_order() {
    let mut reg: TemplateRegistry<TemplateFactory> = TemplateRegistry::new();
    assert_eq!(reg.register("a", vec![]), 0);
    assert_eq!(reg.register("b", vec![]), 1);
    assert_eq!(reg.register("a", vec![]), 0);
    assert_eq!(reg.instantiate(1).map(|v| v.len()), Some(0));
    assert!(reg.instantiate(2).is_none());
}
