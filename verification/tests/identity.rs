use orgb::smbios::{
    clean_identity_field, identity_from_fields, BoardIdentity, IdentityError, IdentityField,
};

#[test]
fn keeps_board_identity_fields() {
    let identity = BoardIdentity {
        vendor: "Colorful Technology".to_owned(),
        model: "BATTLE-AX B860M-PLUS S WIFI7".to_owned(),
        revision: Some("1.0".to_owned()),
    };

    assert_eq!(identity.model, "BATTLE-AX B860M-PLUS S WIFI7");
    assert_eq!(identity.revision.as_deref(), Some("1.0"));
}

#[test]
fn identity_fields_are_trimmed_and_blank_ones_dropped() {
    assert_eq!(
        clean_identity_field("  Colorful Technology \n"),
        Some("Colorful Technology".to_owned())
    );
    assert_eq!(clean_identity_field(" \t\u{3000} "), None);
    assert_eq!(clean_identity_field(""), None);
}

#[test]
fn identity_needs_vendor_then_model() {
    let identity = identity_from_fields(
        Some(" Colorful Technology And Development Co.,Ltd "),
        Some("BATTLE-AX B860M-PLUS S WIFI7\n"),
        Some("  "),
    )
    .unwrap();
    assert_eq!(identity.vendor, "Colorful Technology And Development Co.,Ltd");
    assert_eq!(identity.model, "BATTLE-AX B860M-PLUS S WIFI7");
    assert_eq!(identity.revision, None);

    let identity = identity_from_fields(Some("Colorful"), Some("B860M"), Some(" V20 ")).unwrap();
    assert_eq!(identity.revision.as_deref(), Some("V20"));
    assert_eq!(
        identity_from_fields(Some("Colorful"), Some("B860M"), None).unwrap().revision,
        None
    );

    assert_eq!(
        identity_from_fields(None, None, None),
        Err(IdentityError::Missing(IdentityField::Vendor))
    );
    assert_eq!(
        identity_from_fields(Some(" "), None, None),
        Err(IdentityError::Empty(IdentityField::Vendor))
    );
    assert_eq!(
        identity_from_fields(Some("Colorful"), None, Some("1.0")),
        Err(IdentityError::Missing(IdentityField::Model))
    );
    assert_eq!(
        identity_from_fields(Some("Colorful"), Some("\t"), Some("1.0")),
        Err(IdentityError::Empty(IdentityField::Model))
    );
}
