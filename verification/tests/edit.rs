use lisplens::edit::{apply_line_ops, splice, Edit, EditError, LineOp, SpliceError};


    #[test]
    fn splice_replaces_inserts_and_deletes() {
        let edits = vec![
            Edit { range: 0..1, text: "P".into() }, // replace 'a'
            Edit { range: 3..3, text: "Z".into() }, // insert before 'd'
            Edit { range: 4..5, text: "".into() },  // delete 'e'
        ];
        assert_eq!(splice("abcdef", edits).unwrap(), "PbcZdf");
    }

    #[test]
    fn splice_rejects_overlap() {
        let edits = vec![
            Edit { range: 0..3, text: "X".into() },
            Edit { range: 2..4, text: "Y".into() },
        ];
        assert_eq!(splice("abcdef", edits), Err(SpliceError::Overlap));
    }

    #[test]
    fn splice_order_is_irrelevant_for_inserts_at_one_offset() {
        let xy = vec![
            Edit { range: 1..1, text: "X".into() },
            Edit { range: 1..1, text: "Y".into() },
        ];
        let yx = vec![
            Edit { range: 1..1, text: "Y".into() },
            Edit { range: 1..1, text: "X".into() },
        ];
        assert_eq!(splice("ab", xy).unwrap(), "aXYb");
        assert_eq!(splice("ab", yx).unwrap(), "aXYb");
    }

    #[test]
    fn splice_order_is_irrelevant_for_a_shuffled_batch() {
        let a = vec![
            Edit { range: 4..5, text: "".into() },
            Edit { range: 0..1, text: "P".into() },
            Edit { range: 3..3, text: "Z".into() },
        ];
        assert_eq!(splice("abcdef", a).unwrap(), "PbcZdf");
    }

    #[test]
    fn splice_rejects_out_of_bounds() {
        let edits = vec![Edit { range: 0..99, text: "X".into() }];
        assert_eq!(splice("abc", edits), Err(SpliceError::OutOfBounds));
    }

    #[test]
    fn replace_a_line_keeps_the_others() {
        let out = apply_line_ops(
            "l1\nl2\nl3\n",
            &[LineOp::Replace { start: 2, end: 2, text: "L2\n".into() }],
        )
        .unwrap();
        assert_eq!(out, "l1\nL2\nl3\n");
    }

    #[test]
    fn delete_a_line() {
        let out = apply_line_ops("l1\nl2\nl3\n", &[LineOp::Delete { start: 2, end: 2 }]).unwrap();
        assert_eq!(out, "l1\nl3\n");
    }

    #[test]
    fn insert_after_a_line_and_before_the_first() {
        let out = apply_line_ops(
            "l1\nl2\n",
            &[
                LineOp::InsertAfter { after: 1, text: "mid\n".into() },
                LineOp::InsertAfter { after: 0, text: "top\n".into() },
            ],
        )
        .unwrap();
        assert_eq!(out, "top\nl1\nmid\nl2\n");
    }

    #[test]
    fn all_ops_resolve_against_the_original_snapshot() {
        // Deleting line 1 and replacing line 3 both use original numbering; the
        // delete must not shift the replace.
        let out = apply_line_ops(
            "a\nb\nc\n",
            &[
                LineOp::Delete { start: 1, end: 1 },
                LineOp::Replace { start: 3, end: 3, text: "C\n".into() },
            ],
        )
        .unwrap();
        assert_eq!(out, "b\nC\n");
    }

    #[test]
    fn out_of_range_line_is_rejected() {
        let err = apply_line_ops("a\n", &[LineOp::Delete { start: 9, end: 9 }]).unwrap_err();
        assert_eq!(err, EditError::LineOutOfRange);
    }
