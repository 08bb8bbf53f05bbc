use lisplens::nameless::{current_name, Nameless};


    #[test]
    fn current_name_matches_nameless_discovery() {
        assert_eq!(current_name("php-mode.el").as_deref(), Some("php"));
        assert_eq!(
            current_name("php-project.el").as_deref(),
            Some("php-project")
        );
        assert_eq!(current_name("php.el").as_deref(), Some("php"));
        assert_eq!(current_name("foo-mode-tests.el").as_deref(), Some("foo"));
        assert_eq!(current_name("bar-test.el").as_deref(), Some("bar"));
        assert_eq!(
            current_name("/a/b/php-face.el").as_deref(),
            Some("php-face")
        );
    }

    #[test]
    fn savings_for_current_name_and_alias() {
        let nl = Nameless::for_file("php-mode.el");
        assert_eq!(nl.saving("php-mode-some-function"), 3); // php- (4) -> : (1)
        assert_eq!(nl.saving("font-lock-add-keywords"), 8); // font-lock- (10) -> fl: (2)
        assert_eq!(nl.saving("php"), 0); // no separator, no trailing char
        assert_eq!(nl.saving("php-"), 0); // no trailing char
        assert_eq!(nl.saving("other-symbol"), 0);
    }
