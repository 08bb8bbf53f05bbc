use lisplens::config::FormatConfig;
use lisplens::reader::Dialect;

/// Reindent Clojure with the rule table.
fn fmt(input: &str) -> String {
    lisplens::format::format(input, &FormatConfig::default(), Dialect::Clojure)
}

/// Reindent Clojure in the fixed (Tonsky) style.
fn fmt_fixed(input: &str) -> String {
    let config = FormatConfig { clojure_fixed_indent: true, ..FormatConfig::default() };
    lisplens::format::format(input, &config, Dialect::Clojure)
}

/// Reindent Phel, which shares the model with its own table.
fn fmt_phel(input: &str) -> String {
    lisplens::format::format(input, &FormatConfig::default(), Dialect::Phel)
}

    #[test]
    fn block_and_inner_bodies() {
        let input = "\
(defn f [x]
(when x
(g x)
(h x)))
(let [a 1
b 2]
(+ a b))
(do
(a)
(b))
(cond
p 1
q 2)";
        let want = "\
(defn f [x]
  (when x
    (g x)
    (h x)))
(let [a 1
      b 2]
  (+ a b))
(do
  (a)
  (b))
(cond
  p 1
  q 2)";
        assert_eq!(fmt(input), want, "\n{}", fmt(input));
    }

    #[test]
    fn block_special_args_and_fallback() {
        let input = "\
(when x y
z)
(condp = x
1 :a
2 :b)
(foo
bar
baz)
(foo bar
baz)";
        let want = "\
(when x y
      z)
(condp = x
  1 :a
  2 :b)
(foo
 bar
 baz)
(foo bar
     baz)";
        assert_eq!(fmt(input), want, "\n{}", fmt(input));
    }

    #[test]
    fn threading_and_collections() {
        let input = "\
(-> x
(a)
(b))
(->> x
(a))
[1
2]
{:a 1
:b 2}
#{a
b}";
        let want = "\
(-> x
    (a)
    (b))
(->> x
     (a))
[1
 2]
{:a 1
 :b 2}
#{a
  b}";
        assert_eq!(fmt(input), want, "\n{}", fmt(input));
    }

    #[test]
    fn nested_inner_rules() {
        let input = "\
(reify P
(f [_]
body))
(defrecord R [a]
P
(m [_]
x))
(letfn [(g [x]
y)]
body)";
        let want = "\
(reify P
  (f [_]
    body))
(defrecord R [a]
  P
  (m [_]
    x))
(letfn [(g [x]
          y)]
  body)";
        assert_eq!(fmt(input), want, "\n{}", fmt(input));
    }

    #[test]
    fn namespaced_heads_def_fallback_and_reader_conditional() {
        let input = "\
(clojure.core/when x
y)
(defthing a
b)
(map #(+ % 1)
coll)
#?(:clj a
:cljs b)";
        let want = "\
(clojure.core/when x
  y)
(defthing a
  b)
(map #(+ % 1)
     coll)
#?(:clj a
   :cljs b)";
        assert_eq!(fmt(input), want, "\n{}", fmt(input));
    }

    #[test]
    fn metadata_map_and_docstring_interior() {
        let input = "\
(def ^{:doc \"one
  See: x.\"
:deprecated \"1.1\"}
name 1)";
        let want = "\
(def ^{:doc \"one
  See: x.\"
       :deprecated \"1.1\"}
  name 1)";
        assert_eq!(fmt(input), want, "\n{}", fmt(input));
    }

    #[test]
    fn metadata_prefix_on_args_and_heads() {
        let input = "\
(doto ^Foo
(-write x)
(.close))
(^:m when x
y)
(#'foo x
y)";
        let want = "\
(doto ^Foo
 (-write x)
  (.close))
(^:m when x
  y)
(#'foo x
       y)";
        assert_eq!(fmt(input), want, "\n{}", fmt(input));
    }

    #[test]
    fn discarded_form_interior_indents_against_the_discard() {
        let input = "\
[a
#_[\"/spec\" {:c d}
[\"/x\" {:p 1}]]
b]";
        let want = "\
[a
 #_[\"/spec\" {:c d}
    [\"/x\" {:p 1}]]
 b]";
        assert_eq!(fmt(input), want, "\n{}", fmt(input));
    }

    #[test]
    fn discard_in_a_body_slot_counts_like_a_real_form() {
        let input = "\
(if true #_lazy
(a)
(b))";
        let want = "\
(if true #_lazy
    (a)
    (b))";
        assert_eq!(fmt(input), want, "\n{}", fmt(input));
    }

    #[test]
    fn clojure_already_formatted_is_a_fixed_point() {
        let input = "\
(defn process [input]
  (let [x (parse input)]
    (->> x
         (map inc)
         (filter pos?))))";
        assert_eq!(fmt(input), input);
    }

    #[test]
    fn fixed_tonsky_style() {
        let input = "\
(defn f [x]
(when x
(foo bar
baz)
(-> a (b)
(c))))
[1
2]
((g) x
y)
#(foo %
%2)";
        let want = "\
(defn f [x]
  (when x
    (foo bar
      baz)
    (-> a (b)
      (c))))
[1
 2]
((g) x
     y)
#(foo %
   %2)";
        assert_eq!(fmt_fixed(input), want, "\n{}", fmt_fixed(input));
    }

    #[test]
    fn phel_indentation() {
        let input = "\
(defn f [x]
(when x
(foo)
(bar)))
(foreach [a xs]
(println a))
(when-not
(test)
(body))
(condp
=
x
y)
(defstruct Point [x y])";
        let want = "\
(defn f [x]
  (when x
    (foo)
    (bar)))
(foreach [a xs]
  (println a))
(when-not
  (test)
  (body))
(condp
  =
  x
  y)
(defstruct Point [x y])";
        assert_eq!(fmt_phel(input), want, "\n{}", fmt_phel(input));
    }

    #[test]
    fn phel_reader_constructs_indent_cleanly() {
        let input = "\
(defn f [x]
(map |(inc $) x)
(php/new \\RuntimeException \"boom\")
(\\Phel\\Lang\\Symbol/create \"s\")
(def sym '*_.%;!:+-?))";
        let want = "\
(defn f [x]
  (map |(inc $) x)
  (php/new \\RuntimeException \"boom\")
  (\\Phel\\Lang\\Symbol/create \"s\")
  (def sym '*_.%;!:+-?))";
        assert_eq!(fmt_phel(input), want, "\n{}", fmt_phel(input));
    }

    #[test]
    fn fixed_prefixed_heads() {
        let input = "\
(^:m foo x
y)
(#'foo x
y)";
        let want = "\
(^:m foo x
  y)
(#'foo x
       y)";
        assert_eq!(fmt_fixed(input), want, "\n{}", fmt_fixed(input));
    }
