use lobedo_core::curve::Curve;
use lobedo_core::glob::glob_match;
use lobedo_core::groups::{build_group_mask, group_expr_matches, parse_group_tokens};
use lobedo_core::text_map::TextMap;
use lobedo_core::text_order::text_lt;

fn groups(entries: &[(&str, Vec<bool>)]) -> TextMap<Vec<bool>> {
    let mut m = TextMap::new();
    for (k, v) in entries {
        m.insert(k.to_string(), v.clone());
    }
    m
}

#[test]
fn glob_patterns_match_whole_names() {
    assert!(glob_match("C*", "Cd"));
    assert!(glob_match("*", ""));
    assert!(glob_match("a?c", "abc"));
    assert!(!glob_match("a?c", "ac"));
    assert!(!glob_match("Cd", "Cdx"));
    assert!(glob_match("*_mask*", "left_mask_2"));
}

#[test]
fn group_tokens_split_on_spaces_and_commas() {
    let tokens = parse_group_tokens(" top, ^side  !bottom ^ ");
    assert_eq!(
        tokens,
        vec![(true, "top".to_string()), (false, "side".to_string()), (false, "bottom".to_string())]
    );
    assert!(parse_group_tokens(" , ").is_empty());
}

#[test]
fn group_masks_union_selected_groups() {
    let g = groups(&[("top", vec![true, false, false]), ("side", vec![false, true, false]), ("short", vec![true])]);
    assert_eq!(build_group_mask(&g, "top side", 3), Some(vec![true, true, false]));
    assert_eq!(build_group_mask(&g, "*", 3), Some(vec![true, true, false]));
    assert_eq!(build_group_mask(&g, "^top", 3), Some(vec![false, true, false]));
    assert_eq!(build_group_mask(&g, "  ", 3), None);
    assert_eq!(build_group_mask(&g, "nothing", 3), Some(vec![false, false, false]));
}

#[test]
fn group_expressions_name_groups() {
    let g = groups(&[("top", vec![true])]);
    assert!(group_expr_matches(&g, "t*"));
    assert!(!group_expr_matches(&g, "side"));
    assert!(group_expr_matches(&g, "^side"));
    assert!(!group_expr_matches(&g, ""));
    assert!(!group_expr_matches(&groups(&[]), "^side"));
}

#[test]
fn curves_count_segments_and_remap() {
    assert_eq!(Curve::new(vec![0, 1, 2], false).primitive_count(), 2);
    assert_eq!(Curve::new(vec![0, 1, 2], true).primitive_count(), 3);
    assert_eq!(Curve::new(vec![4], true).primitive_count(), 0);

    let mut c = Curve::new(vec![1, u32::MAX - 1], false);
    c.offset_indices(5);
    assert_eq!(c.indices, vec![6, u32::MAX]);

    let c = Curve::new(vec![0, 1, 2, 3], true);
    let r = c.remap_indices(&[10, u32::MAX, 12]).unwrap();
    assert_eq!(r.indices, vec![10, 12]);
    assert!(r.closed);
    assert!(c.remap_indices(&[]).is_none());
    assert!(c.remap_indices(&[1]).is_none());
}

#[test]
fn strings_order_by_code_point() {
    assert!(text_lt("Ca", "Cd"));
    assert!(text_lt("C", "Ca"));
    assert!(!text_lt("Cd", "Cd"));
    assert!(text_lt("Z", "a"));
    assert!(!text_lt("b", "a"));
    assert!(text_lt("", "a"));
}
