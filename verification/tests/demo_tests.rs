use stackablectl::catalog::{Catalog, SourceLoad};
use stackablectl::demo::{get_demo, get_demos, Demo, StackParameter};

fn demo(description: &str, stack: &str) -> Demo {
    Demo {
        description: description.to_string(),
        documentation: None,
        stackable_stack: stack.to_string(),
        labels: vec!["demo".to_string()],
        manifests: Vec::new(),
        parameters: vec![StackParameter {
            name: "adminPassword".to_string(),
            description: "admin password".to_string(),
            default_value: "adminadmin".to_string(),
        }],
    }
}

#[test]
fn demo_lookup_finds_merged_entry() {
    let loads = vec![
        SourceLoad::Parsed(vec![("quickstart".to_string(), demo("first", "stack-a"))]),
        SourceLoad::Parsed(vec![("quickstart".to_string(), demo("second", "stack-b"))]),
    ];
    let demos = get_demos(loads);
    assert_eq!(demos.len(), 1);
    let found = get_demo(&demos, &"quickstart".to_string()).unwrap();
    assert_eq!(found.description, "second");
    assert_eq!(found.stackable_stack, "stack-b");
    assert_eq!(found.parameters[0].default_value, "adminadmin");
}

#[test]
fn missing_demo_is_a_typed_error_not_a_termination() {
    let demos: Catalog<Demo> = Catalog::new();
    let err = get_demo(&demos, &"absent".to_string()).unwrap_err();
    assert_eq!(
        err.message,
        "Demo absent not found. Use `stackablectl demo list` to list the available demos."
    );
    let again = get_demo(&demos, &"absent".to_string());
    assert!(again.is_err());
}
