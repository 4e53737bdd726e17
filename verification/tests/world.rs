use lost_oppai::chunk_manager::{camera_pos_to_chunk_pos, ChunkManager};
use lost_oppai::graph::{connect_outer_vertices, kruskals_edges, number_of_edges};

#[test]
fn camera_chunks() {
    assert_eq!(camera_pos_to_chunk_pos(0, 0), (0, 0));
    assert_eq!(camera_pos_to_chunk_pos(255, 256), (0, 1));
    assert_eq!(camera_pos_to_chunk_pos(-1, -255), (-1, -1));
    assert_eq!(camera_pos_to_chunk_pos(-256, -257), (-2, -2));
}

#[test]
fn chunks_spawn_once_and_despawn_when_far() {
    let mut m = ChunkManager::new();
    let first = m.spawn_chunks((0, 0));
    assert_eq!(first.len(), 49);
    assert_eq!(first[0], (-3, -3));
    assert_eq!(first[1], (-2, -3));
    assert_eq!(first[48], (3, 3));
    let second = m.spawn_chunks((1, 0));
    assert_eq!(second, vec![(4, -3), (4, -2), (4, -1), (4, 0), (4, 1), (4, 2), (4, 3)]);
    assert_eq!(m.spawned_chunks.len(), 56);
    let chunks = vec![(-3, 0), (-2, 0), (4, 3)];
    let gone = m.despawn_chunks((1, 0), &chunks);
    assert_eq!(gone, vec![true, false, false]);
    assert_eq!(m.spawned_chunks.len(), 55);
    assert!(!m.spawned_chunks.contains(&(-3, 0)));
}

#[test]
fn kruskal_accepts_a_spanning_forest() {
    let edges = vec![(0, 1), (1, 2), (0, 2), (2, 3), (1, 3)];
    assert_eq!(kruskals_edges(4, edges), vec![(0, 1), (1, 2), (2, 3)]);
    assert_eq!(kruskals_edges(3, vec![(0, 5), (0, 1)]), vec![(0, 1)]);
}

#[test]
fn outer_vertices_get_a_second_edge() {
    let mut edges = vec![(0, 1), (1, 2)];
    assert_eq!(number_of_edges(1, &edges), 2);
    let prefs = vec![vec![1, 2], vec![0, 2], vec![1, 0]];
    connect_outer_vertices(3, &prefs, &mut edges);
    assert_eq!(edges, vec![(0, 1), (1, 2), (0, 2)]);
    let mut lonely = vec![(0, 1)];
    connect_outer_vertices(1, &prefs, &mut lonely);
    assert_eq!(lonely, vec![(0, 1)]);
    let mut fallback = vec![(0, 1)];
    connect_outer_vertices(2, &vec![vec![], vec![]], &mut fallback);
    assert_eq!(fallback, vec![(0, 1), (1, 0)]);
}

#[test]
fn chunks_just_spawned_stay_on_screen() {
    let mut m = ChunkManager::new();
    let spawned = m.spawn_chunks((-5, 7));
    let gone = m.despawn_chunks((-5, 7), &spawned);
    assert!(gone.iter().all(|g| !g));
    assert_eq!(m.spawned_chunks.len(), 49);
    assert!(m.spawn_chunks((-5, 7)).is_empty());
}

#[test]
fn connecting_keeps_earlier_edges() {
    let mut edges = vec![(2, 3)];
    let prefs = vec![vec![3, 1], vec![0], vec![0], vec![2]];
    connect_outer_vertices(4, &prefs, &mut edges);
    assert_eq!(edges[0], (2, 3));
    assert_eq!(edges, vec![(2, 3), (0, 3), (1, 0), (2, 0)]);
}
