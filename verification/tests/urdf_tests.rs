use rebotarm_control_rt::urdf::{
    attr_value, attr_value_span, child_link_from_joint_text, end_link_inertial_span,
    find_xml_element, fixed_descendant_links, has_end_link_inertial, inertial_range,
    inertial_site, joint_blocks, leading_indent, link_range, movable_joint_child_links,
    parent_link_from_joint_text, payload_indices, remove_link_inertial, remove_link_inertials,
    splice, tag_text, dynamic_blocks, fit_mode, fit_writes_model, DynamicParamError, FitMode,
    PayloadError, UrdfError,
};

const ROBOT: &str = r#"<robot name="arm">
  <link name="base">
    <inertial>
      <mass value="2.0"/>
    </inertial>
  </link>
  <link name="l1">
    <inertial>
      <origin xyz="0 0 0.1" rpy="0 0 1.5"/>
      <mass value="1.0"/>
      <inertia ixx="0.1" ixy="0" ixz="0" iyy="0.1" iyz="0" izz="0.1"/>
    </inertial>
  </link>
  <link name='tool'>
    <inertial>
      <mass value="0.3"/>
    </inertial>
  </link>
  <link name="tip">
    <inertial>
      <mass value="0.1"/>
    </inertial>
  </link>
  <link name="bare"/>
  <joint name="j1" type="revolute">
    <parent link="base"/>
    <child link="l1"/>
  </joint>
  <joint name="f1" type="fixed">
    <parent link="l1"/>
    <child link='tool'/>
  </joint>
  <joint name="f2" type="fixed">
    <parent link="tool"/>
    <child link="tip"/>
  </joint>
  <joint name="f3" type="fixed">
    <parent link="base"/>
    <child link="bare"/>
  </joint>
</robot>
"#;

fn strings(v: &[&str]) -> Vec<String> {
    v.iter().map(|s| s.to_string()).collect()
}

#[test]
fn tags_and_attributes() {
    assert_eq!(tag_text(ROBOT, "joint"), Some(r#"<joint name="j1" type="revolute">"#.to_string()));
    assert_eq!(tag_text(ROBOT, "sensor"), None);
    assert_eq!(attr_value(r#"<a x="1" y='two'>"#, "y"), Some("two".to_string()));
    assert_eq!(attr_value(r#"<a x="1" x='2'>"#, "x"), Some("1".to_string()));
    assert_eq!(attr_value(r#"<a x="1>"#, "x"), None);
    assert_eq!(attr_value("<a>", "x"), None);
}

#[test]
fn link_and_inertial_spans() {
    let (a, b) = link_range(ROBOT, "l1").expect("l1");
    let link = &ROBOT[a..b];
    assert!(link.starts_with(r#"<link name="l1">"#));
    assert!(link.ends_with("</link>"));
    let (i, j) = inertial_range(link).expect("closed").expect("inertial");
    assert!(link[i..j].starts_with("<inertial>"));
    assert!(link[i..j].ends_with("</inertial>"));
    assert_eq!(leading_indent(link, i), "    ");
    assert_eq!(leading_indent("abc", 2), "ab");
    assert_eq!(inertial_range("<link/>"), Ok(None));
    assert_eq!(inertial_range("<link><inertial>"), Err(UrdfError::InertialNotClosed));

    let (ta, tb) = link_range(ROBOT, "tool").expect("single-quoted name");
    assert!(ROBOT[ta..tb].starts_with("<link name='tool'>"));
    assert_eq!(link_range(ROBOT, "nope"), Err(UrdfError::LinkNotFound));
    assert_eq!(link_range(r#"name="x""#, "x"), Err(UrdfError::LinkStartNotFound));
    assert_eq!(link_range(r#"<link name="x">"#, "x"), Err(UrdfError::LinkNotClosed));
}

#[test]
fn inertial_site_keeps_indent_and_rpy() {
    let site = inertial_site(ROBOT, "l1").expect("site");
    assert!(ROBOT[site.start..site.end].starts_with("<inertial>"));
    assert_eq!(site.indent, "    ");
    assert_eq!(site.rpy, "0 0 1.5");
    let site = inertial_site(ROBOT, "base").expect("site");
    assert_eq!(site.rpy, "0 0 0");
    let empty = "<link name=\"e\"></link>";
    assert!(matches!(inertial_site(empty, "e"), Err(UrdfError::NoInertial)));
    assert!(matches!(inertial_site(ROBOT, "bare"), Err(UrdfError::LinkNotClosed)));
}

#[test]
fn removing_inertials() {
    let out = remove_link_inertial(ROBOT, "tool").expect("remove");
    let (a, b) = link_range(&out, "tool").expect("tool");
    assert!(!out[a..b].contains("<inertial"));
    let removed = "<inertial>\n      <mass value=\"0.3\"/>\n    </inertial>";
    assert_eq!(ROBOT.len() - out.len(), removed.len());
    let empty = "<link name=\"e\"></link>";
    assert_eq!(remove_link_inertial(empty, "e").expect("unchanged"), empty);
    assert_eq!(remove_link_inertial(ROBOT, "nope"), Err(UrdfError::LinkNotFound));

    let out = remove_link_inertials(ROBOT, &strings(&["tool", "tip"])).expect("remove both");
    assert!(!out[link_range(&out, "tip").unwrap().0..link_range(&out, "tip").unwrap().1].contains("<inertial"));
    assert!(out[link_range(&out, "l1").unwrap().0..link_range(&out, "l1").unwrap().1].contains("<inertial"));
    assert_eq!(remove_link_inertials(ROBOT, &Vec::new()).expect("nothing"), ROBOT);
    assert_eq!(
        remove_link_inertials(ROBOT, &strings(&["tool", "nope"])),
        Err(UrdfError::LinkNotFound)
    );
}

#[test]
fn splicing_text() {
    assert_eq!(splice("abcdef", 1, 3, "XY"), "aXYdef");
    assert_eq!(splice("abc", 3, 3, "!"), "abc!");
}

#[test]
fn joints_and_their_links() {
    let blocks = joint_blocks(ROBOT).expect("blocks");
    assert_eq!(blocks.len(), 4);
    assert!(blocks[0].starts_with(r#"<joint name="j1""#));
    assert!(blocks[3].ends_with("</joint>"));
    assert_eq!(child_link_from_joint_text(&blocks[1]), Some("tool".to_string()));
    assert_eq!(parent_link_from_joint_text(&blocks[1]), Some("l1".to_string()));
    assert_eq!(child_link_from_joint_text("<joint/>"), None);
    assert_eq!(joint_blocks("<joint name=\"x\">"), Err(UrdfError::JointNotClosed));
    assert_eq!(joint_blocks("<robot/>").expect("none"), Vec::<String>::new());

    assert_eq!(movable_joint_child_links(ROBOT).expect("movable"), strings(&["l1"]));
}

#[test]
fn fixed_descendants_depth_first() {
    let found = fixed_descendant_links(ROBOT, &strings(&["l1"])).expect("walk");
    assert_eq!(found, strings(&["tool", "tip"]));
    let found = fixed_descendant_links(ROBOT, &strings(&["base", "l1"])).expect("walk");
    assert_eq!(found, strings(&["tool", "tip", "bare"]));
    let found = fixed_descendant_links(ROBOT, &strings(&["tool", "tip"])).expect("walk");
    assert_eq!(found, Vec::<String>::new());
    assert!(fixed_descendant_links(ROBOT, &Vec::new()).expect("walk").is_empty());
}

#[test]
fn fixed_descendants_each_once() {
    let xml = r#"
<joint type="fixed"><parent link="a"/><child link="b"/></joint>
<joint type="fixed"><parent link="a"/><child link="c"/></joint>
<joint type="fixed"><parent link="b"/><child link="c"/></joint>
<joint type="fixed"><parent link="c"/><child link="a"/></joint>
"#;
    let found = fixed_descendant_links(xml, &strings(&["a"])).expect("walk");
    assert_eq!(found, strings(&["b", "c"]));
}

#[test]
fn element_search_needs_a_delimiter() {
    let s = "<massive/><mass\tvalue=\"1\"/>";
    assert_eq!(find_xml_element(s, "mass"), Some(10));
    assert_eq!(find_xml_element("<mass>", "mass"), Some(0));
    assert_eq!(find_xml_element("<mass", "mass"), None);
    assert_eq!(find_xml_element("<massive>", "mass"), None);
}

#[test]
fn end_link_inertial_block() {
    let xml = "<link name=\"end_link\">\n  <inertial>\n    <mass value=\"0.5\"/>\n    <inertia ixx=\"1\" ixy='2'/>\n  </inertial>\n</link>";
    assert!(has_end_link_inertial(xml));
    let (a, b) = end_link_inertial_span(xml).expect("span");
    assert!(xml[a..b].starts_with("<inertial>"));
    assert!(xml[a..b].ends_with("</inertial>"));
    let block = &xml[a..b];
    let (va, vb) = attr_value_span(block, "mass", "value").expect("mass");
    assert_eq!(&block[va..vb], "0.5");
    let (va, vb) = attr_value_span(block, "inertia", "ixy").expect("ixy");
    assert_eq!(&block[va..vb], "2");
    assert_eq!(attr_value_span(block, "inertia", "izz"), Err(UrdfError::AttrMissing));
    assert_eq!(attr_value_span(block, "origin", "xyz"), Err(UrdfError::ElementMissing));
    assert_eq!(attr_value_span("<mass value", "mass", "value"), Err(UrdfError::TagMalformed));
    assert_eq!(attr_value_span("<mass value=\"1>", "mass", "value"), Err(UrdfError::QuoteNotClosed));

    assert!(!has_end_link_inertial(ROBOT));
    assert_eq!(end_link_inertial_span(ROBOT), Err(UrdfError::EndLinkMissing));
    assert_eq!(end_link_inertial_span("name='end_link'"), Err(UrdfError::EndLinkNoInertial));
    assert_eq!(
        end_link_inertial_span("name='end_link'<inertial"),
        Err(UrdfError::EndLinkInertialMalformed)
    );
    assert_eq!(
        end_link_inertial_span("name='end_link'<inertial>"),
        Err(UrdfError::EndLinkInertialNotClosed)
    );
}

#[test]
fn payload_parameter_sets() {
    assert_eq!(payload_indices(4), Ok(vec![0, 1, 2, 3]));
    assert_eq!(payload_indices(10), Ok((0..10).collect::<Vec<usize>>()));
    assert_eq!(payload_indices(6), Err(PayloadError::BadParameterCount));
}

#[test]
fn dynamic_parameter_blocks() {
    assert_eq!(dynamic_blocks(60, 6), Ok(6));
    assert_eq!(dynamic_blocks(0, 0), Ok(0));
    assert_eq!(dynamic_blocks(55, 6), Err(DynamicParamError::NotBlocksOfTen));
    assert_eq!(dynamic_blocks(60, 5), Err(DynamicParamError::LinkCountMismatch));
}

#[test]
fn fit_mode_names() {
    assert_eq!(fit_mode("full"), Some(FitMode::Full));
    assert_eq!(fit_mode("base"), Some(FitMode::Base));
    assert_eq!(fit_mode("payload"), Some(FitMode::Payload));
    assert_eq!(fit_mode("Full"), None);
    assert_eq!(fit_mode(""), None);
}

#[test]
fn only_base_fit_leaves_model_unwritten() {
    assert!(fit_writes_model(FitMode::Full));
    assert!(fit_writes_model(FitMode::Payload));
    assert!(!fit_writes_model(FitMode::Base));
}

#[test]
fn offsets_are_bytes_of_the_text() {
    let xml = "<!-- bras à pince -->\n<link name=\"l1\">\n  <inertial>\n  </inertial>\n</link>";
    let (a, b) = link_range(xml, "l1").unwrap();
    assert!(xml[a..].starts_with("<link"));
    assert!(xml[..b].ends_with("</link>"));
    assert_eq!(b, xml.len());
    let (i, j) = inertial_range(&xml[a..b]).unwrap().unwrap();
    assert_eq!(&xml[a + i..a + j], "<inertial>\n  </inertial>");
    assert_eq!(leading_indent(&xml[a..b], i), "  ");
    assert_eq!(find_xml_element("é<a>", "a"), Some(2));
    assert_eq!(splice("é<x/>ü", 2, 6, "y"), "éyü");
}
