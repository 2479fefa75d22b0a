use local_ai::local_codebase_index::{
    bearer_key, decode_vector, encode_vector, endpoint_error, missing_hashes,
    missing_node_message, node_from_row, reachable_chunks, relevant_hashes, rerank_fragments,
    route_operational_id, route_space_id, row_of_node, unique_fragments,
    validate_embeddings_response, EmbeddingRoute, EmbeddingShape, IndexFragment, IndexRoute,
    RankedChunk, StoredNode, TreeNode,
};

fn route(base_url: &str, model: &str) -> EmbeddingRoute {
    EmbeddingRoute {
        provider_name: "local".to_string(),
        base_url: base_url.to_string(),
        model: model.to_string(),
        api_key: None,
        embeddings: true,
    }
}

fn shape(index: usize, vector: &[f32]) -> EmbeddingShape {
    EmbeddingShape {
        index,
        dimensions: vector.len(),
        finite: vector.iter().all(|value| value.is_finite()),
    }
}

fn fragment(content: &str) -> IndexFragment {
    IndexFragment { content_hash: format!("hash of {content}"), content: content.to_string() }
}

fn node(hash: &str, children: &[&str]) -> TreeNode {
    TreeNode {
        hash: hash.to_string(),
        children: children.iter().map(|child| child.to_string()).collect(),
    }
}

fn names(items: &[&str]) -> Vec<String> {
    items.iter().map(|item| item.to_string()).collect()
}

#[test]
fn local_store_persists_merkle_nodes_and_vectors_across_restart() {
    let vectors: [(&str, [f32; 2]); 2] = [("alpha", [1.0, 0.0]), ("beta", [0.0, 1.0])];
    let stored = vectors
        .iter()
        .map(|(hash, vector)| {
            let bits = vector.iter().map(|value| value.to_bits()).collect();
            (hash.to_string(), encode_vector(&bits))
        })
        .collect::<Vec<_>>();
    let rows = [node("root", &["alpha", "inner"]), node("inner", &["beta"])]
        .iter()
        .map(row_of_node)
        .collect::<Vec<_>>();

    let nodes = rows
        .into_iter()
        .map(|row| node_from_row(row).ok().unwrap())
        .collect::<Vec<_>>();
    let chunks = stored.iter().map(|(hash, _)| hash.clone()).collect();
    let mut found = reachable_chunks("root", &nodes, &chunks).ok().unwrap();
    found.sort();
    assert_eq!(found, ["alpha", "beta"]);
    for ((_, vector), (_, bytes)) in vectors.iter().zip(&stored) {
        let bits = decode_vector(bytes).ok().unwrap();
        let read = bits.into_iter().map(f32::from_bits).collect::<Vec<_>>();
        assert_eq!(read, vector);
    }
}

#[test]
fn route_change_uses_a_distinct_vector_space() {
    let root_hash = "b".repeat(64);
    let mut index = IndexRoute::new();
    assert!(!index.is_ready());
    assert!(index.set_route_result(Ok(Some(route("http://localhost:1234/v1", "embed-a")))));
    let (_, first_space) = index.ready_route().ok().unwrap();
    let stored = vec![(first_space, root_hash.clone())];

    assert!(index.set_route_result(Ok(Some(route("http://localhost:1234/v1", "embed-b")))));
    let (_, space) = index.ready_route().ok().unwrap();
    let present = stored
        .iter()
        .filter(|(stored_space, _)| *stored_space == space)
        .map(|(_, hash)| hash.clone())
        .collect();
    assert_eq!(missing_hashes(&vec![root_hash.clone()], &present), vec![root_hash]);
}

#[test]
fn embeddings_response_validation_fails_closed() {
    let error = validate_embeddings_response(&vec![shape(0, &[f32::NAN])], 1)
        .expect_err("non-finite vectors must be rejected");
    assert!(error.contains("invalid float vector"));
}

#[test]
fn responses_are_put_in_the_order_of_the_request() {
    let data = vec![shape(1, &[0.0, 1.0]), shape(0, &[1.0, 0.0])];
    assert_eq!(validate_embeddings_response(&data, 2).ok().unwrap(), [1, 0]);
    assert!(validate_embeddings_response(&data, 3).is_err());
    let twice = vec![shape(0, &[1.0]), shape(0, &[1.0])];
    assert!(validate_embeddings_response(&twice, 2).is_err());
    let uneven = vec![shape(0, &[1.0]), shape(1, &[1.0, 2.0])];
    assert!(validate_embeddings_response(&uneven, 2).is_err());
    let beyond = vec![shape(0, &[1.0]), shape(2, &[1.0])];
    assert!(validate_embeddings_response(&beyond, 2).is_err());
}

#[test]
fn keys_change_the_operation_and_not_the_space() {
    let plain = route("http://localhost:1234/v1", "embed");
    let slashed = route("http://localhost:1234/v1//", "embed");
    let keyed =
        EmbeddingRoute { api_key: Some("key".to_string()), ..route("http://localhost:1234/v1", "embed") };
    assert_eq!(route_space_id(&plain), route_space_id(&slashed));
    assert_eq!(route_space_id(&plain), route_space_id(&keyed));
    assert_ne!(route_operational_id(&plain), route_operational_id(&keyed));
    assert_eq!(bearer_key(&keyed), Some("key".to_string()));
    assert_eq!(
        bearer_key(&EmbeddingRoute { api_key: Some(" ".to_string()), ..plain }),
        None
    );
}

#[test]
fn routes_without_embeddings_stay_disabled() {
    let mut index = IndexRoute::new();
    let mut without = route("http://localhost", "chat");
    without.embeddings = false;
    index.set_route_result(Ok(Some(without)));
    assert!(!index.is_ready());
    assert!(index.ready_route().err().unwrap().contains("local"));
    assert!(index.set_route_result(Ok(Some(route("http://localhost", "embed")))));
    assert!(!index.set_route_result(Ok(Some(route("http://localhost", "embed")))));
}

#[test]
fn broken_vectors_and_nodes_are_refused() {
    assert_eq!(
        decode_vector(&vec![1, 2, 3]).err().unwrap(),
        "Stored embedding vector is malformed"
    );
    assert!(decode_vector(&f32::NAN.to_le_bytes().to_vec()).is_err());
    assert_eq!(encode_vector(&vec![1.0f32.to_bits()]), 1.0f32.to_le_bytes());
    let broken = node_from_row(StoredNode {
        hash: "h".to_string(),
        children_json: "{}".to_string(),
    });
    assert!(broken.err().unwrap().starts_with("decoding local Merkle children: "));
    assert_eq!(row_of_node(&node("h", &["a", "b\""])).children_json, "[\"a\",\"b\\\"\"]");
    let missing = reachable_chunks("root", &vec![node("root", &["gone"])], &Vec::new());
    assert_eq!(
        missing_node_message(&missing.err().unwrap()),
        "Local codebase index is missing Merkle node gone"
    );
}

#[test]
fn cyclic_trees_end() {
    let nodes = vec![node("a", &["b", "c"]), node("b", &["a"])];
    assert_eq!(reachable_chunks("a", &nodes, &names(&["c"])).ok().unwrap(), ["c"]);
}

#[test]
fn fragments_are_embedded_once_and_ranked_by_words() {
    let fragments =
        vec![fragment("alpha parser"), fragment("beta renderer"), fragment("alpha parser")];
    let unique = unique_fragments(&fragments);
    assert_eq!(unique.len(), 2);
    let ranked = rerank_fragments("renderer", &unique);
    assert_eq!(ranked[0].content, "beta renderer");
}

#[test]
fn error_bodies_are_cut() {
    assert_eq!(
        endpoint_error("500 Internal Server Error", "oops"),
        "OpenAI-compatible embeddings endpoint returned 500 Internal Server Error: oops"
    );
    assert!(endpoint_error("500", &"x".repeat(100_000)).len() < 10_000);
}

#[test]
fn best_chunks_come_first() {
    let chunk = |hash: &str, rank: u64| RankedChunk { rank, hash: hash.to_string() };
    let hashes = relevant_hashes(vec![chunk("a", 1), chunk("c", 9), chunk("b", 9)]);
    assert_eq!(hashes[0], "b");
    assert_eq!(hashes[1], "c");
}

#[test]
fn nearest_missing_node_is_reported() {
    let nodes = vec![node("root", &["left", "far", "right"]), node("left", &["near"])];
    assert_eq!(reachable_chunks("root", &nodes, &names(&["right"])).err().unwrap(), "far");
    let nodes = vec![node("root", &["left", "right"]), node("left", &["near"])];
    assert_eq!(reachable_chunks("root", &nodes, &names(&["right"])).err().unwrap(), "near");
    assert_eq!(reachable_chunks("root", &nodes, &Vec::new()).err().unwrap(), "right");
}
