use ciroach::template::{expand, find_token};
use ciroach::text::to_chars;
use regex::{escape, NoExpand, Regex};

fn by_regex(text: &str, var: &str, value: &str) -> String {
    let pattern = format!(r"\$\{{\{{\s*{}\s*\}}\}}", escape(var));
    let regex = Regex::new(&pattern).unwrap();
    regex.replace_all(text, NoExpand(value)).to_string()
}

#[test]
fn a_token_is_replaced_by_the_value() {
    assert_eq!(expand("echo ${{NODE}}", "NODE", "18"), "echo 18");
    assert_eq!(expand("node:${{ NODE }}-alpine", "NODE", "20"), "node:20-alpine");
}

#[test]
fn whitespace_inside_the_braces_is_allowed() {
    assert_eq!(expand("${{v}}", "v", "x"), "x");
    assert_eq!(expand("${{ v }}", "v", "x"), "x");
    assert_eq!(expand("${{\t v \n}}", "v", "x"), "x");
    assert_eq!(expand("${{  v}}", "v", "x"), "x");
    assert_eq!(expand("${{v  }}", "v", "x"), "x");
}

#[test]
fn whitespace_outside_the_braces_is_not() {
    assert_eq!(expand("$ {{v}}", "v", "x"), "$ {{v}}");
    assert_eq!(expand("${ {v}}", "v", "x"), "${ {v}}");
    assert_eq!(expand("${{v} }", "v", "x"), "${{v} }");
}

#[test]
fn every_token_is_replaced() {
    assert_eq!(expand("${{v}}-${{ v }}/${{v}}", "v", "ab"), "ab-ab/ab");
    assert_eq!(expand("${{v}}${{v}}", "v", ""), "");
}

#[test]
fn other_variables_stay() {
    assert_eq!(expand("${{w}} ${{v}} ${{vv}}", "v", "1"), "${{w}} 1 ${{vv}}");
    assert_eq!(expand("${{ V }}", "v", "1"), "${{ V }}");
}

#[test]
fn the_value_is_copied_as_it_is() {
    assert_eq!(expand("img:${{v}}", "v", "$0"), "img:$0");
    assert_eq!(expand("img:${{v}}", "v", "${name}"), "img:${name}");
    assert_eq!(expand("img:${{v}}", "v", "${{v}}"), "img:${{v}}");
    assert_eq!(expand("img:${{v}}", "v", "a\\b"), "img:a\\b");
}

#[test]
fn the_name_is_matched_as_it_is() {
    assert_eq!(expand("${{a.b}} ${{axb}}", "a.b", "1"), "1 ${{axb}}");
    assert_eq!(expand("${{a+}} ${{aa}}", "a+", "1"), "1 ${{aa}}");
    assert_eq!(expand("${{ }}", "", "1"), "1");
    assert_eq!(expand("${{}}", "", "1"), "1");
}

#[test]
fn a_text_without_tokens_stays() {
    assert_eq!(expand("", "v", "x"), "");
    assert_eq!(expand("echo hi", "v", "x"), "echo hi");
    assert_eq!(expand("${{v", "v", "x"), "${{v");
    assert_eq!(expand("$${v}}", "v", "x"), "$${v}}");
}

#[test]
fn a_token_is_found_where_it_starts() {
    let text = to_chars("a ${{ v }} b");
    let var = to_chars("v");
    assert_eq!(find_token(&text, &var, 0), None);
    assert_eq!(find_token(&text, &var, 2), Some(10));
    assert_eq!(find_token(&text, &var, 3), None);
}

#[test]
fn expansion_agrees_with_a_regular_expression() {
    let texts = [
        "",
        "echo ${{NODE}}",
        "${{ NODE }}${{NODE}} ${{  NODE\t}}",
        "${{NODE}",
        "${{ NODE } }",
        "$${{NODE}}",
        "${{${{NODE}}}}",
        "${{ N }} ${{ NODE }} ${{ NODES }}",
        "${{\u{a0}NODE\u{2003}}}",
        "a ${{ }} b ${{}} c",
        "${{  x}} ${{ x }} ${{x  }}",
        "${{ }} }}",
        "${{  }}  }}",
        "${{} }} ${{}}}}",
        "trailing ${{",
        "${{ a.b }} ${{ axb }}",
    ];
    let vars = ["NODE", "N", "", " ", " x", "x ", "}}", " }}", "} ", "a.b", "$", "{{"];
    let values = ["18", "", "$0", "${{NODE}}", " "];
    for text in texts {
        for var in vars {
            for value in values {
                assert_eq!(
                    expand(text, var, value),
                    by_regex(text, var, value),
                    "text {:?}, variable {:?}, value {:?}",
                    text,
                    var,
                    value
                );
            }
        }
    }
}
