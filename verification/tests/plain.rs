use dippin_parser::plain::{parse_plain_records, tokenize, PlainLineError, PlainRecord};

const SAMPLE: &str = "\
graph 1 2.75 4.5
node a 1.375 4.0694 0.75 0.5 a solid ellipse black lightgrey
node b 1.375 3.0694 0.75 0.5 b solid ellipse black lightgrey
edge a b 4 1.375 3.8195 1.375 3.7114 1.375 3.5813 1.375 3.4612 solid black
stop
";

fn node_names(records: &[PlainRecord]) -> Vec<String> {
    records
        .iter()
        .filter_map(|r| match r {
            PlainRecord::Node { name, .. } => Some(name.clone()),
            _ => None,
        })
        .collect()
}

#[test]
fn test_parse_plain_nodes() {
    let (records, err) = parse_plain_records(SAMPLE);
    assert!(err.is_none());
    let names = node_names(&records);
    assert_eq!(names.len(), 2);
    assert_eq!(names[0], "a");
    assert_eq!(names[1], "b");
}

#[test]
fn test_parse_plain_edges() {
    let (records, _) = parse_plain_records(SAMPLE);
    let edges: Vec<&PlainRecord> = records.iter().filter(|r| matches!(r, PlainRecord::Edge { .. })).collect();
    assert_eq!(edges.len(), 1);
    match edges[0] {
        PlainRecord::Edge { from, to, points, .. } => {
            assert_eq!(from, "a");
            assert_eq!(to, "b");
            assert_eq!(points.len(), 4);
        }
        _ => unreachable!(),
    }
}

#[test]
fn test_parse_plain_dimensions() {
    let (records, _) = parse_plain_records(SAMPLE);
    match &records[0] {
        PlainRecord::Graph { scale, width, height } => {
            let s: f64 = scale.parse().unwrap();
            let w: f64 = width.parse::<f64>().unwrap() * s;
            let h: f64 = height.parse::<f64>().unwrap() * s;
            assert!((w - 2.75).abs() < 1e-6);
            assert!((h - 4.5).abs() < 1e-6);
        }
        _ => panic!("expected graph record"),
    }
}

#[test]
fn test_parse_plain_with_labels() {
    let input = "\
graph 1 3.0 5.0
node hello 1.0 2.0 0.75 0.5 \"Hello World\" solid ellipse black lightgrey
node bye 1.0 4.0 0.75 0.5 \"Goodbye\" solid ellipse black lightgrey
edge hello bye 2 1.0 2.5 1.0 3.5 \"my label\" solid black
stop
";
    let (records, _) = parse_plain_records(input);
    match (&records[1], &records[2], &records[3]) {
        (PlainRecord::Node { label: l1, .. }, PlainRecord::Node { label: l2, .. }, PlainRecord::Edge { label, .. }) => {
            assert_eq!(l1, "Hello World");
            assert_eq!(l2, "Goodbye");
            assert_eq!(label.as_deref(), Some("my label"));
        }
        _ => panic!("unexpected records"),
    }
}

#[test]
fn test_parse_plain_scale_factor() {
    let input = "\
graph 2 3.0 4.0
node a 1.0 2.0 0.5 0.5 a solid ellipse black lightgrey
stop
";
    let (records, _) = parse_plain_records(input);
    let scale: f64 = match &records[0] {
        PlainRecord::Graph { scale, width, height } => {
            let s: f64 = scale.parse().unwrap();
            assert!((width.parse::<f64>().unwrap() * s - 6.0).abs() < 1e-6);
            assert!((height.parse::<f64>().unwrap() * s - 8.0).abs() < 1e-6);
            s
        }
        _ => panic!("expected graph record"),
    };
    match &records[1] {
        PlainRecord::Node { x, y, .. } => {
            assert!((x.parse::<f64>().unwrap() * scale - 2.0).abs() < 1e-6);
            assert!((y.parse::<f64>().unwrap() * scale - 4.0).abs() < 1e-6);
        }
        _ => panic!("expected node record"),
    }
}

#[test]
fn plain_tokens_and_errors() {
    assert_eq!(tokenize("  a \"b c\" \"d\\\"e\" f"), vec!["a", "b c", "d\"e", "f"]);
    assert_eq!(tokenize("\"open"), vec!["open"]);
    let (r, e) = parse_plain_records("graph 1 2\n");
    assert!(r.is_empty());
    assert!(matches!(e, Some(PlainLineError::Message(m)) if m == "graph line requires scale, width, height"));
    let (_, e) = parse_plain_records("edge a b x\n");
    assert!(matches!(e, Some(PlainLineError::PointCount(t)) if t == "x"));
    let (_, e) = parse_plain_records("edge a b 3 1 2\n");
    assert!(matches!(e, Some(PlainLineError::Message(m)) if m == "edge line claims 3 points but not enough tokens"));
    let (r, e) = parse_plain_records("graph 1 2 3\nbogus\n");
    assert_eq!(r.len(), 1);
    assert!(matches!(e, Some(PlainLineError::Message(m)) if m == "unknown line type 'bogus'"));
    let (r, e) = parse_plain_records("stop\nbogus\n");
    assert!(r.is_empty() && e.is_none());
    let (r, _) = parse_plain_records("edge a b 1 0 0 dashed black\n");
    assert!(matches!(&r[0], PlainRecord::Edge { label: None, .. }));
}
