use oxidian::placeholders::{disambiguate_protected, find_pair_ids, generate_placeholders, DelimPair};
use oxidian::sanitization::Sanitization;

fn run_basic_test(query: &str, solution: Vec<&str>, open_delim: &str, close_delim: &str) {
    let sanitization: Vec<Sanitization> = solution.iter().map(|s| Sanitization::from(*s)).collect();
    let delimiters = DelimPair::new(open_delim, close_delim);
    let pairs = generate_placeholders(query, &delimiters);
    assert_eq!(sanitization, pairs);
}

fn run_original_test(query: &str, solution: Vec<&str>, open_delim: &str, close_delim: &str) {
    let delimiters = DelimPair::new(open_delim, close_delim);
    let pairs: Vec<String> = generate_placeholders(query, &delimiters).into_iter().map(|s| s.original).collect();
    let expected: Vec<String> = solution.iter().map(|s| s.to_string()).collect();
    assert_eq!(expected, pairs);
}

const FAILURE_CASE: &str = "\n#literature #literature/misc\n# Configuration-Constrained Tube MPC\nBy [[M. Villanueva]] [[M. Müller]] [[B. Houska]] \n\n[]()\n\n[Try to open in Zotero](zotero://select/items/@villanueva_ConfigurationConstrainedTubeMPC_2022)\n\n<span class=\"abstract\">\nThis paper is about robust Model Predictive Control (MPC) for linear systems with additive and multiplicative uncertainty. A novel class of configurationconstrained polytopic robust forward invariant tubes is introduced, which admit a joint parameterization of their facets and vertices. They are the foundation for the development of novel Configuration-Constrained Tube MPC (CCTMPC) controllers that freely optimize the shape of their polytopic tube, subject to conic vertex configuration constraints, as well as associated vertex control laws by solving convex optimization problems online. It is shown that CCTMPC is—under appropriate assumptions—systematically less conservative than Rigid- and Homothetic- Tube MPC. Additionally, it is proven that there exist control systems for which CCTMPC is less conservative than Elastic Tube MPC, Disturbance Affine Feedback MPC, and Fully Parameterized Tube MPC.\n</span>\n\n## Notes\n\nInteresting new type of polyhedral tube MPC. Contains a nice theoretical treatment of polyhedral sets with a fixed shape matrix. \nThey claim that their tube-based MPC is superior to existing alternatives both in terms of computational complexity as conservatism, but this is proved in general. Furthermore, the class of tubes is quite novel and it is not very clear that it works well in practice, so I would not use these yet at the moment, as it would require extensive experimental testing of our own. \n\n### Template polyhedra \n\nSection 3 in the paper treats [[Template polyhedra]]. \n\n### Tube construction \n\nThe tubes constructed in this paper are of the form \n15532696941500219154\nwhere $Y$ is a fixed template matrix";

const FAILURE_CASE_DOUBLE: &str = "#literature #literature/misc\n# Configuration-Constrained Tube MPC\nBy [[M. Villanueva]] [[M. Müller]] [[B. Houska]] \n\n[]()\n\n[Try to open in Zotero](zotero://select/items/@villanueva_ConfigurationConstrainedTubeMPC_2022)\n\n<span class=\"abstract\">\nThis paper is about robust Model Predictive Control (MPC) for linear systems with additive and multiplicative uncertainty. A novel class of configurationconstrained polytopic robust forward invariant tubes is introduced, which admit a joint parameterization of their facets and vertices. They are the foundation for the development of novel Configuration-Constrained Tube MPC (CCTMPC) controllers that freely optimize the shape of their polytopic tube, subject to conic vertex configuration constraints, as well as associated vertex control laws by solving convex optimization problems online. It is shown that CCTMPC is—under appropriate assumptions—systematically less conservative than Rigid- and Homothetic- Tube MPC. Additionally, it is proven that there exist control systems for which CCTMPC is less conservative than Elastic Tube MPC, Disturbance Affine Feedback MPC, and Fully Parameterized Tube MPC.\n</span>\n\n## Notes\n\nInteresting new type of polyhedral tube MPC. Contains a nice theoretical treatment of polyhedral sets with a fixed shape matrix. \nThey claim that their tube-based MPC is superior to existing alternatives both in terms of computational complexity as conservatism, but this is proved in general. Furthermore, the class of tubes is quite novel and it is not very clear that it works well in practice, so I would not use these yet at the moment, as it would require extensive experimental testing of our own. \n\n### Template polyhedra \n\nSection 3 in the paper treats [[Template polyhedra]]. \n\n### Tube construction \n\nThe tubes constructed in this paper are of the form \n15532696941500219154\nwhere $Y$ is a fixed template matrix, $\\mathcal{V}$ is the vertex set of \na given $\\beta$-contractive polytope $P(Y, \\sigma)$. \n\nand $\\mathbb{Y}_\\mathcal{V}$  is the vertex configuration domain of $P(Y,\\sigma)$:";

const DISPLAY_CASE: &str = "\n#literature #literature/misc\n# Configuration-Constrained Tube MPC\nBy [[M. Villanueva]] [[M. Müller]] [[B. Houska]] \n\n[]()\n\n[Try to open in Zotero](zotero://select/items/@villanueva_ConfigurationConstrainedTubeMPC_2022)\n\n<span class=\"abstract\">\nThis paper is about robust Model Predictive Control (MPC) for linear systems with additive and multiplicative uncertainty. A novel class of configurationconstrained polytopic robust forward invariant tubes is introduced, which admit a joint parameterization of their facets and vertices. They are the foundation for the development of novel Configuration-Constrained Tube MPC (CCTMPC) controllers that freely optimize the shape of their polytopic tube, subject to conic vertex configuration constraints, as well as associated vertex control laws by solving convex optimization problems online. It is shown that CCTMPC is—under appropriate assumptions—systematically less conservative than Rigid- and Homothetic- Tube MPC. Additionally, it is proven that there exist control systems for which CCTMPC is less conservative than Elastic Tube MPC, Disturbance Affine Feedback MPC, and Fully Parameterized Tube MPC.\n</span>\n\n## Notes\n\nInteresting new type of polyhedral tube MPC. Contains a nice theoretical treatment of polyhedral sets with a fixed shape matrix. \nThey claim that their tube-based MPC is superior to existing alternatives both in terms of computational complexity as conservatism, but this is proved in general. Furthermore, the class of tubes is quite novel and it is not very clear that it works well in practice, so I would not use these yet at the moment, as it would require extensive experimental testing of our own. \n\n### Template polyhedra \n\nSection 3 in the paper treats [[Template polyhedra]]. \n\n### Tube construction \n\nThe tubes constructed in this paper are of the form \n15532696941500219154\nwhere $Y$ is a fixed template matrix, $\\mathcal{V}$ is the vertex set of \na given $\\beta$-contractive polytope $P(Y, \\sigma)$. \n\nand $\\mathbb{Y}_\\mathcal{V}$  is the vertex configuration domain of $P(Y,\\sigma)$: \n$$\n    \\mathbb{Y}_{\\mathcal{V}} =  \\{ y \\in \\Re^m \\mid \\F_{\\mathcal{V}} (y) \\neq \\emptyset \\}, \n$$\nwhich can be explicitly expre\n";

const DOUBLE_SOLUTION: [&str; 6] = ["$Y$", "$\\mathcal{V}$", "$\\beta$", "$P(Y, \\sigma)$", "$\\mathbb{Y}_\\mathcal{V}$", "$P(Y,\\sigma)$"];

const DISPLAY_SOLUTION: &str = "$$\n    \\mathbb{Y}_{\\mathcal{V}} =  \\{ y \\in \\Re^m \\mid \\F_{\\mathcal{V}} (y) \\neq \\emptyset \\}, \n$$";

const INLINE_CASE: &str = r"
Let $\{w_t\}_{t \in \N}$ be time-homogeneous Markov chain, defined 
on some probability space $(\Omega, \mathcal{F}, \prob)$ and taking 
values on the finite set $\W \dfn \{1,\dots, \nModes\}$.
";

#[test]
fn placeholders_test_equation_at_the_end() {
    run_basic_test("Something that contains an $equation$", vec!["$equation$"], "$", "$");
}

#[test]
fn placeholders_test_equation_internal() {
    run_basic_test("Something that contains an $equation$ but does not end with it.", vec!["$equation$"], "$", "$");
}

#[test]
fn placeholders_test_equation_unicode() {
    run_basic_test("Something that contains ümlauts and an $equation$ but does not end with it.", vec!["$equation$"], "$", "$");
}

#[test]
fn placeholders_test_equation_failure_case() {
    run_basic_test(FAILURE_CASE, vec!["$Y$"], "$", "$");
}

#[test]
fn placeholders_test_equation_failure_case_double() {
    run_basic_test(FAILURE_CASE_DOUBLE, DOUBLE_SOLUTION.to_vec(), "$", "$");
}

#[test]
fn placeholders_test_failure_case_display_math() {
    run_basic_test(DISPLAY_CASE, vec![DISPLAY_SOLUTION], "$$", "$$");
}

#[test]
fn test_failure_case_inline_math() {
    run_basic_test(INLINE_CASE, vec![r"$\{w_t\}_{t \in \N}$", r"$(\Omega, \mathcal{F}, \prob)$", r"$\W \dfn \{1,\dots, \nModes\}$"], "$", "$");
}

#[test]
fn test_failure_case_display_then_inline_math() {
    run_basic_test(INLINE_CASE, vec![r"$\{w_t\}_{t \in \N}$", r"$(\Omega, \mathcal{F}, \prob)$", r"$\W \dfn \{1,\dots, \nModes\}$"], "$", "$");
}

#[test]
fn obs_placeholders_test_equation_at_the_end() {
    run_original_test("Something that contains an $equation$", vec!["$equation$"], "$", "$");
}

#[test]
fn obs_placeholders_test_equation_internal() {
    run_original_test("Something that contains an $equation$ but does not end with it.", vec!["$equation$"], "$", "$");
}

#[test]
fn obs_placeholders_test_equation_unicode() {
    run_original_test("Something that contains ümlauts and an $equation$ but does not end with it.", vec!["$equation$"], "$", "$");
}

#[test]
fn obs_placeholders_test_equation_failure_case() {
    run_original_test(FAILURE_CASE, vec!["$Y$"], "$", "$");
}

#[test]
fn obs_placeholders_test_equation_failure_case_double() {
    run_original_test(FAILURE_CASE_DOUBLE, DOUBLE_SOLUTION.to_vec(), "$", "$");
}

#[test]
fn obs_placeholders_test_failure_case_display_math() {
    run_original_test(DISPLAY_CASE, vec![DISPLAY_SOLUTION], "$$", "$$");
}

#[test]
fn pair_ids_are_character_spans() {
    let ids = find_pair_ids("ä $x$ and `c`", &DelimPair::new("$", "$"));
    assert_eq!(ids, vec![(2, 5)]);
}

#[test]
fn protected_spans_hide_tags() {
    let (text, recs) = disambiguate_protected("a $#math$ and `#code` and $$#x$$");
    assert_eq!(recs.len(), 3);
    assert!(!text.contains("#math"));
    assert!(!text.contains("#code"));
    assert!(!text.contains("#x"));
    assert_eq!(recs[0].original, "$$#x$$");
    assert!(!recs[0].before_markdown);
    assert_eq!(recs[2].original, "`#code`");
    assert!(!recs[2].before_markdown);
}
