use lisplens::config::{apply_dir_locals_content, apply_file_locals, editorconfig_props, glob_match, FormatConfig};


    #[test]
    fn glob_matches_common_editorconfig_patterns() {
        assert!(glob_match("*", "src/foo.el"));
        assert!(glob_match("*.el", "foo.el"));
        assert!(glob_match("*.el", "a/b/foo.el")); // no slash → basename
        assert!(glob_match("*.{el,lisp}", "foo.lisp"));
        assert!(glob_match("src/**/*.el", "src/a/b/foo.el"));
        assert!(!glob_match("*.el", "foo.scm"));
        assert!(glob_match("[abc].el", "b.el"));
        assert!(!glob_match("[!abc].el", "b.el"));
    }

    #[test]
    fn header_and_footer_set_indent_tabs() {
        let mut c = FormatConfig::default();
        apply_file_locals(
            ";;; x -*- indent-tabs-mode: t; tab-width: 4 -*-\n(foo)\n",
            &mut c,
        );
        assert!(c.indent_tabs);
        assert_eq!(c.tab_width, 4);

        let mut c2 = FormatConfig::default();
        apply_file_locals(
            "(foo)\n;; Local Variables:\n;; indent-tabs-mode: t\n;; End:\n",
            &mut c2,
        );
        assert!(c2.indent_tabs);
    }

    #[test]
    fn file_local_overrides_and_shebang_is_skipped() {
        let mut c = FormatConfig::default();
        apply_file_locals(
            "#!/usr/bin/emacs --script\n;; -*- tab-width: 2 -*-\n",
            &mut c,
        );
        assert_eq!(c.tab_width, 2);
    }

    #[test]
    fn dir_locals_apply_to_elisp_modes() {
        let mut c = FormatConfig::default();
        apply_dir_locals_content(
            "((emacs-lisp-mode . ((indent-tabs-mode . t) (tab-width . 3))))",
            &mut c,
        );
        assert!(c.indent_tabs);
        assert_eq!(c.tab_width, 3);
    }

    #[test]
    fn dir_locals_nil_key_applies_to_all_modes() {
        let mut c = FormatConfig::default();
        apply_dir_locals_content("((nil . ((indent-tabs-mode . t))))", &mut c);
        assert!(c.indent_tabs);
    }

    #[test]
    fn dir_locals_accept_both_mode_entry_forms() {
        // Non-dotted `(MODE (VAR . VAL) …)` — the form php-mode's own file uses.
        let mut c = FormatConfig::default();
        apply_dir_locals_content(
            "((emacs-lisp-mode (tab-width . 5) (nameless-mode . t)))",
            &mut c,
        );
        assert_eq!(c.tab_width, 5);
        assert!(c.nameless);

        // Dotted `(MODE . ((VAR . VAL) …))` still works.
        let mut c2 = FormatConfig::default();
        apply_dir_locals_content("((emacs-lisp-mode . ((nameless-mode . t))))", &mut c2);
        assert!(c2.nameless);
    }

    #[test]
    fn nameless_mode_resolves_from_file_local() {
        let mut c = FormatConfig::default();
        apply_file_locals(";;; x -*- nameless-mode: t -*-\n(foo)\n", &mut c);
        assert!(c.nameless);
    }

    #[test]
    fn editorconfig_space_and_tab_width() {
        let (props, root) = editorconfig_props(
            "root = true\n[*.el]\nindent_style = tab\ntab_width = 4\n",
            "foo.el",
        );
        assert_eq!(props.indent_tabs, Some(true));
        assert_eq!(props.tab_width, Some(4));
        assert!(root);
    }

    #[test]
    fn lisp_body_indent_resolves_from_file_local_and_editorconfig() {
        // File-local `lisp-body-indent` (a `:safe` Emacs var) sets body_indent.
        let mut c = FormatConfig::default();
        assert_eq!(c.body_indent, 2);
        apply_file_locals(";;; x -*- lisp-body-indent: 4 -*-\n(foo)\n", &mut c);
        assert_eq!(c.body_indent, 4);

        // EditorConfig `indent_size` maps to body_indent (and, EditorConfig's
        // own rule, to tab_width when tab_width is unset).
        let (props, _) = editorconfig_props("[*.el]\nindent_size = 3\n", "foo.el");
        assert_eq!(props.indent_size, Some(3));
        assert_eq!(props.tab_width, Some(3));
    }

#[test]
fn resolve_precedence_file_local_over_dir_locals_over_editorconfig() {
    let ecs = vec![(
        "root = true\n[*.el]\nindent_style = tab\ntab_width = 4\nindent_size = 4\n".to_string(),
        "foo.el".to_string(),
    )];
    let dls = vec!["((emacs-lisp-mode . ((tab-width . 6))))".to_string()];
    let src = ";; -*- tab-width: 2 -*-\n(foo)\n";
    let c = lisplens::config::resolve(src, &ecs, &dls);
    assert_eq!(c.tab_width, 2, "file-local wins");
    assert!(c.indent_tabs, "EditorConfig value kept where nothing above sets it");
    assert_eq!(c.body_indent, 4);
    let c2 = lisplens::config::resolve("(foo)\n", &ecs, &dls);
    assert_eq!(c2.tab_width, 6, "dir-locals win over EditorConfig");
    let c3 = lisplens::config::resolve("(foo)\n", &ecs, &[]);
    assert_eq!(c3.tab_width, 4, "EditorConfig wins over the default");
    let c4 = lisplens::config::resolve("(foo)\n", &[], &[]);
    assert_eq!(c4, FormatConfig::default());
}

#[test]
fn islisp_indent_style_file_local_selects_eisl() {
    let mut c = FormatConfig::default();
    assert!(!c.islisp_eisl);
    apply_file_locals(";; -*- islisp-indent-style: eisl -*-\n(foo)\n", &mut c);
    assert!(c.islisp_eisl);
}
