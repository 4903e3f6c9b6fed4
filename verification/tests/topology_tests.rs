use gossip_glomers::error::NodeError;
use gossip_glomers::sender::Sender;
use gossip_glomers::strmap::StrMap;
use gossip_glomers::topology::{all_others, find, sane_neighbors, supplied_neighbors, without};

fn ids(n: usize) -> Vec<String> {
    (0..n).map(|i| format!("n{}", i)).collect()
}

fn member(me: usize, n: usize) -> Sender {
    Sender::starting_at(format!("n{}", me), ids(n), 0)
}

#[test]
fn find_returns_the_first_position() {
    let mut list = ids(4);
    list.push("n1".to_string());
    assert_eq!(find(&list, "n0"), Some(0));
    assert_eq!(find(&list, "n1"), Some(1));
    assert_eq!(find(&list, "n3"), Some(3));
    assert_eq!(find(&list, "n4"), None);
    assert_eq!(find(&vec![], "n0"), None);
}

#[test]
fn a_single_node_has_no_skip_neighbors() {
    assert_eq!(sane_neighbors(&member(0, 1)).unwrap(), Vec::<String>::new());
}

#[test]
fn skip_neighbors_stand_at_powers_of_two() {
    assert_eq!(sane_neighbors(&member(0, 2)).unwrap(), vec!["n1"]);
    assert_eq!(sane_neighbors(&member(1, 2)).unwrap(), vec!["n0"]);
    assert_eq!(sane_neighbors(&member(0, 5)).unwrap(), vec!["n1", "n2", "n4"]);
    assert_eq!(sane_neighbors(&member(3, 5)).unwrap(), vec!["n4", "n0", "n2"]);
    assert_eq!(sane_neighbors(&member(0, 8)).unwrap(), vec!["n1", "n2", "n4"]);
    assert_eq!(sane_neighbors(&member(6, 8)).unwrap(), vec!["n7", "n0", "n2"]);
    assert_eq!(sane_neighbors(&member(0, 9)).unwrap(), vec!["n1", "n2", "n4", "n8"]);
    assert_eq!(sane_neighbors(&member(24, 25)).unwrap(), vec!["n0", "n1", "n3", "n7", "n15"]);
}

#[test]
fn skip_neighbors_need_the_own_id_among_the_ids() {
    let stranger = Sender::starting_at("n9".to_string(), ids(3), 0);
    assert_eq!(sane_neighbors(&stranger).unwrap_err(), NodeError::MissingSelf);
    let nobody = Sender::new();
    assert_eq!(sane_neighbors(&nobody).unwrap_err(), NodeError::MissingSelf);
}

#[test]
fn every_node_is_reached_within_the_bound() {
    for n in 1..40usize {
        let hops = (usize::BITS - (n - 1).leading_zeros()) as usize;
        let neighbors: Vec<Vec<usize>> = (0..n)
            .map(|me| {
                sane_neighbors(&member(me, n))
                    .unwrap()
                    .iter()
                    .map(|name| name[1..].parse().unwrap())
                    .collect()
            })
            .collect();
        for origin in 0..n {
            let mut reached = vec![false; n];
            reached[origin] = true;
            for _ in 0..hops {
                let before = reached.clone();
                for i in 0..n {
                    if before[i] {
                        for j in &neighbors[i] {
                            reached[*j] = true;
                        }
                    }
                }
            }
            assert!(reached.iter().all(|r| *r), "n = {}, origin = {}", n, origin);
        }
    }
}

#[test]
fn all_others_leaves_out_the_node_itself() {
    assert_eq!(all_others(&member(1, 4)), vec!["n0", "n2", "n3"]);
    assert_eq!(all_others(&member(0, 1)), Vec::<String>::new());
    let stranger = Sender::starting_at("n9".to_string(), ids(2), 0);
    assert_eq!(all_others(&stranger), vec!["n0", "n1"]);
}

#[test]
fn without_drops_every_occurrence() {
    let list = vec!["a".to_string(), "b".to_string(), "a".to_string(), "c".to_string()];
    assert_eq!(without(&list, "a"), vec!["b", "c"]);
    assert_eq!(without(&list, "z"), list);
    assert_eq!(without(&vec![], "a"), Vec::<String>::new());
}

#[test]
fn supplied_neighbors_are_the_own_entry() {
    let mut topology: StrMap<Vec<String>> = StrMap::new();
    topology.insert("n0".to_string(), vec!["n1".to_string()]);
    topology.insert("n1".to_string(), vec!["n0".to_string(), "n2".to_string()]);
    topology.insert("n2".to_string(), vec![]);
    assert_eq!(supplied_neighbors(&member(1, 3), &topology).unwrap(), vec!["n0", "n2"]);
    assert_eq!(supplied_neighbors(&member(2, 3), &topology).unwrap(), Vec::<String>::new());
}

#[test]
fn supplied_neighbors_need_an_own_entry() {
    let mut topology: StrMap<Vec<String>> = StrMap::new();
    topology.insert("n0".to_string(), vec!["n1".to_string()]);
    assert_eq!(supplied_neighbors(&member(1, 3), &topology).unwrap_err(), NodeError::MissingSelf);
}
