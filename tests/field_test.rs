use browscap_rs::{default_fields, merge_fields, BrowsCapField, BROWSER, DEVICE_TYPE, IS_BETA, IS_MASTER_PARENT, PLATFORM};

#[test]
fn test_load_fields() {
    let fields = default_fields();
    for field in fields.iter() {
        println!("{}", field.name());
    }
    println!("-------------");
    assert_eq!(fields.len(), 6)
}

#[test]
fn test_merge_fields() {
    let mut my_fields: Vec<BrowsCapField> = Vec::new();
    my_fields.push(BROWSER);
    my_fields.push(IS_BETA);
    my_fields.push(PLATFORM);
    let merge_fields = merge_fields(my_fields);
    for merge_field in merge_fields.iter() {
        println!("{}", merge_field.name())
    }
    println!("-------------");
    assert_eq!(merge_fields.len(), 7)
}

#[test]
fn field_columns_follow_positions() {
    assert_eq!(IS_MASTER_PARENT.ordinal(), 0);
    assert_eq!(IS_MASTER_PARENT.index(), 1);
    assert_eq!(BROWSER.index(), 5);
    assert_eq!(DEVICE_TYPE.index(), 43);
    assert_eq!(BROWSER.name(), "BROWSER");
    assert!(BROWSER.is_default());
    assert!(!IS_BETA.is_default());
    assert_eq!(BrowsCapField::values().len(), 50);
}

#[test]
fn merged_projection_is_ordered_and_unique() {
    let merged = merge_fields(vec![PLATFORM, IS_BETA, PLATFORM, BROWSER]);
    let names: Vec<&str> = merged.iter().map(|f| f.name()).collect();
    assert_eq!(
        names,
        vec!["BROWSER", "BROWSER_TYPE", "BROWSER_MAJOR_VERSION", "PLATFORM", "PLATFORM_VERSION", "IS_BETA", "DEVICE_TYPE"]
    );
}
