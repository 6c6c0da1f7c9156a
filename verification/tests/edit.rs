use monty_compat::edit::{apply_edits, Edit, EditError};

#[test]
fn applies_edits_without_shifting_offsets() -> Result<(), EditError> {
    let result = apply_edits(
        "abcdef",
        vec![
            Edit {
                start: 1,
                end: 3,
                replacement: "X".to_owned(),
            },
            Edit {
                start: 5,
                end: 6,
                replacement: "Y".to_owned(),
            },
        ],
    )?;
    assert_eq!(result, "aXdeY");
    Ok(())
}

#[test]
fn rejects_invalid_and_non_utf8_ranges_without_panicking() {
    assert!(matches!(
        apply_edits(
            "aé",
            vec![Edit {
                start: 2,
                end: 3,
                replacement: String::new(),
            }]
        ),
        Err(EditError::NonCharacterBoundary { offset: 2 })
    ));
    assert!(matches!(
        apply_edits(
            "abc",
            vec![Edit {
                start: 4,
                end: 4,
                replacement: String::new(),
            }]
        ),
        Err(EditError::InvalidRange { .. })
    ));
}

#[test]
fn edits_are_applied_in_offset_order_whatever_their_input_order() {
    let result = apply_edits(
        "abcdef",
        vec![
            Edit {
                start: 5,
                end: 6,
                replacement: "Y".to_owned(),
            },
            Edit {
                start: 1,
                end: 3,
                replacement: "X".to_owned(),
            },
        ],
    );
    assert_eq!(result.ok(), Some("aXdeY".to_owned()));
}

#[test]
fn overlapping_edits_are_a_conflict() {
    let result = apply_edits(
        "abcdef",
        vec![
            Edit {
                start: 1,
                end: 4,
                replacement: "X".to_owned(),
            },
            Edit {
                start: 2,
                end: 5,
                replacement: "Y".to_owned(),
            },
        ],
    );
    assert!(matches!(result, Err(EditError::Conflict { .. })));
}

#[test]
fn no_edits_give_back_the_source() {
    assert_eq!(apply_edits("value = 1\n", Vec::new()).ok(), Some("value = 1\n".to_owned()));
}
