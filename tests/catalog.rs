use image_browser::catalog::{group_image_rows, ImageData, ImageRow, Tag};

#[test]
fn tag_new_keeps_fields() {
    let t = Tag::new(7, String::from("holiday"), String::from("#ff0000"));
    assert_eq!(t.id, 7);
    assert_eq!(t.name, "holiday");
    assert_eq!(t.color, "#ff0000");
}

#[test]
fn image_data_takes_file_name() {
    let tags = vec![Tag::new(1, String::from("a"), String::from("b"))];
    let d = ImageData::new(3, "pics/cat.jpg", String::from("/home/u/pics/cat.jpg"), tags.clone()).unwrap();
    assert_eq!(d.id, 3);
    assert_eq!(d.name, "cat.jpg");
    assert_eq!(d.path, "/home/u/pics/cat.jpg");
    assert_eq!(d.tags, tags);
}

#[test]
fn image_data_needs_a_file_name() {
    assert!(ImageData::new(1, "..", String::from("/"), Vec::new()).is_none());
    assert!(ImageData::new(1, "/", String::from("/"), Vec::new()).is_none());
}

fn row(id: i64, path: &str, tag: Option<(i64, &str)>) -> ImageRow {
    ImageRow {
        image_id: id,
        path: path.to_string(),
        tag: tag.map(|(t, n)| Tag::new(t, n.to_string(), String::from("#000"))),
    }
}

#[test]
fn rows_gather_by_image_in_first_seen_order() {
    let rows = vec![
        row(2, "/b.jpg", Some((10, "x"))),
        row(1, "/a.jpg", None),
        row(2, "/b.jpg", Some((11, "y"))),
        row(3, "/c.jpg", Some((10, "x"))),
    ];
    let groups = group_image_rows(rows);
    let ids: Vec<i64> = groups.iter().map(|g| g.image_id).collect();
    assert_eq!(ids, vec![2, 1, 3]);
    assert_eq!(groups[0].path, "/b.jpg");
    let names: Vec<&str> = groups[0].tags.iter().map(|t| t.name.as_str()).collect();
    assert_eq!(names, vec!["x", "y"]);
    assert!(groups[1].tags.is_empty());
    assert_eq!(groups[2].tags.len(), 1);
}

#[test]
fn no_rows_no_images() {
    assert!(group_image_rows(Vec::new()).is_empty());
}
