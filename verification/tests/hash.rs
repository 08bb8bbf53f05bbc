use lisplens::hash::{anchor_hash, file_hash};


    #[test]
    fn hashes_have_the_specified_widths() {
        assert_eq!(anchor_hash(b"anything").len(), 4);
        assert_eq!(file_hash(b"anything").len(), 16);
    }

    #[test]
    fn hashing_is_deterministic() {
        assert_eq!(anchor_hash(b"(defun f ())"), anchor_hash(b"(defun f ())"));
        assert_eq!(file_hash(b"(defun f ())"), file_hash(b"(defun f ())"));
    }

    #[test]
    fn a_single_byte_change_is_drift() {
        assert_ne!(anchor_hash(b"(f x)"), anchor_hash(b"(f  x)"));
        assert_ne!(file_hash(b"(f x)"), file_hash(b"(f  x)"));
    }
