//! Dataset-scan helpers and genome-library metadata.

use evograph::library::{extract_genome_metadata, get_meta_path};
use evograph::scan::{
    class_counts, collect_companion_ids, collect_folder_mapping_ids, companion_relative,
    folder_name, ids_difference, ids_intersection,
};

fn s(x: &str) -> String {
    x.to_string()
}

#[test]
fn folder_mapping_reads_the_parent_directory() {
    let anchors = vec![
        (s("Cat/123"), s("Cat/123.jpg")),
        (s("Dog/9"), s("pets/Dog/9.png")),
        (s("stray"), s("stray.jpg")),
    ];
    let mapped = collect_folder_mapping_ids(&anchors);
    assert_eq!(
        mapped,
        vec![(s("Cat/123"), s("Cat")), (s("Dog/9"), s("Dog"))]
    );
}

#[test]
fn folder_name_handles_separator_edge_cases() {
    assert_eq!(folder_name("a/b/c.jpg"), Some(s("b")));
    assert_eq!(folder_name("b/c.jpg"), Some(s("b")));
    assert_eq!(folder_name("c.jpg"), None);
    assert_eq!(folder_name("/c.jpg"), None);
    assert_eq!(folder_name("a//c.jpg"), None);
}

#[test]
fn companion_ids_keep_the_present_ones() {
    let ids = vec![s("a"), s("b"), s("c")];
    let present = vec![true, false, true];
    assert_eq!(collect_companion_ids(&ids, &present), vec![s("a"), s("c")]);
}

#[test]
fn companion_template_substitutes_the_id() {
    assert_eq!(companion_relative("labels/{id}.txt", "Cat/3"), s("labels/Cat/3.txt"));
    assert_eq!(companion_relative("{id}{id}", "x"), s("xx"));
    assert_eq!(companion_relative("plain.txt", "x"), s("plain.txt"));
    assert_eq!(companion_relative("{id", "x"), s("{id"));
}

#[test]
fn id_set_arithmetic() {
    let all = vec![s("a"), s("b"), s("c")];
    let found = vec![s("c"), s("a")];
    assert_eq!(ids_difference(&all, &found), vec![s("b")]);
    assert_eq!(ids_intersection(&all, &found), vec![s("a"), s("c")]);
}

#[test]
fn classes_are_counted_once_each() {
    let folders = vec![s("Cat"), s("Dog"), s("Cat"), s("Cat")];
    let counts = class_counts(&folders);
    assert_eq!(counts.len(), 2);
    assert!(counts.contains(&(s("Cat"), 3)));
    assert!(counts.contains(&(s("Dog"), 1)));
}

#[test]
fn meta_path_sits_inside_the_genome_directory() {
    assert_eq!(get_meta_path("/data/genomes"), s("/data/genomes/meta.json"));
}

#[test]
fn metadata_summarises_a_genome() {
    let genome = "{\"node\":\"Input\",\"params\":{\"output_shape\":[32,32,3]}}\n{\"node\":\"Conv2D\",\"params\":{\"filters\":2,\"kernel_size\":[3],\"stride\":1,\"padding\":1,\"dilation\":1,\"use_bias\":true}}\n{\"node\":\"Flatten\",\"params\":{}}\n{\"node\":\"Dense\",\"params\":{\"units\":1,\"activation\":\"sigmoid\",\"use_bias\":true}}\n{\"node\":\"Output\",\"params\":{\"input_shape\":[1]}}\nCONNECTIONS\n0 1\n1 2\n2 3\n3 4\n";
    let (input_dims, output_dims, total_nodes, layer_types) = extract_genome_metadata(genome);
    assert_eq!(input_dims, vec![3]);
    assert_eq!(output_dims, vec![1]);
    assert_eq!(total_nodes, 5);
    assert_eq!(
        layer_types,
        vec![s("Conv2D"), s("Dense"), s("Flatten"), s("Input"), s("Output")]
    );
}

#[test]
fn metadata_skips_unparseable_lines() {
    let genome = "not json\n{\"node\":\"Add\",\"params\":{}}\nCONNECTIONS\n";
    let (input_dims, output_dims, total_nodes, layer_types) = extract_genome_metadata(genome);
    assert!(input_dims.is_empty());
    assert!(output_dims.is_empty());
    assert_eq!(total_nodes, 1);
    assert_eq!(layer_types, vec![s("Add")]);
}
