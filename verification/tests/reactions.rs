use intcode::puzzle::reaction::{
    fuel_produced, indegrees, ore_needed, ore_needed_in, read_chemicals, read_graph,
    reverse_mapping, top_sort, Graph,
};

const TRILLION: u64 = 1_000_000_000_000;

fn first() -> Graph {
    read_graph(
        b"10 ORE => 10 A\n1 ORE => 1 B\n7 A, 1 B => 1 C\n7 A, 1 C => 1 D\n7 A, 1 D => 1 E\n\
7 A, 1 E => 1 FUEL\n",
    )
    .unwrap()
}

fn second() -> Graph {
    read_graph(
        b"9 ORE => 2 A\n8 ORE => 3 B\n7 ORE => 5 C\n3 A, 4 B => 1 AB\n5 B, 7 C => 1 BC\n\
4 C, 1 A => 1 CA\n2 AB, 3 BC, 4 CA => 1 FUEL",
    )
    .unwrap()
}

fn third() -> Graph {
    read_graph(
        b"157 ORE => 5 NZVS\n\
165 ORE => 6 DCFZ\n\
44 XJWVT, 5 KHKGT, 1 QDVJ, 29 NZVS, 9 GPVTF, 48 HKGWZ => 1 FUEL\n\
12 HKGWZ, 1 GPVTF, 8 PSHF => 9 QDVJ\n\
179 ORE => 7 PSHF\n\
177 ORE => 5 HKGWZ\n\
7 DCFZ, 7 PSHF => 2 XJWVT\n\
165 ORE => 2 GPVTF\n\
3 DCFZ, 7 NZVS, 5 HKGWZ, 10 PSHF => 8 KHKGT\n",
    )
    .unwrap()
}

#[test]
fn main_example1() {
    let graph = first();
    assert_eq!(Some(31), ore_needed(&graph, 1));
}

#[test]
fn main_example2() {
    let graph = second();
    assert_eq!(Some(165), ore_needed(&graph, 1));
}

#[test]
fn example3() {
    let graph = third();
    assert_eq!(Some(13312), ore_needed(&graph, 1));
    assert_eq!(Some(82892753), fuel_produced(&graph, TRILLION));
    assert_eq!(Some(25590), ore_needed(&graph, 2));
    assert_eq!(Some(1207728), ore_needed(&graph, 100));
}

#[test]
fn fuel_from_a_supply_of_ore() {
    assert_eq!(Some(34482758620), fuel_produced(&first(), TRILLION));
    assert_eq!(Some(6323777403), fuel_produced(&second(), TRILLION));
    assert_eq!(Some(0), ore_needed(&first(), 0));
    assert_eq!(Some(62), ore_needed(&first(), 2));
    assert_eq!(Some(2900), ore_needed(&first(), 100));
    // 31 units of ore make one unit of fuel, and 30 make none.
    assert_eq!(Some(1), fuel_produced(&first(), 31));
    assert_eq!(Some(0), fuel_produced(&first(), 30));
    assert_eq!(Some(0), fuel_produced(&first(), 0));
    // More fuel than 64 bits can count the ore of.
    assert_eq!(None, ore_needed(&third(), u64::MAX));
}

#[test]
fn chemicals_in_an_order() {
    let graph = second();
    assert_eq!(8, graph.len());
    let order = top_sort(&graph).unwrap();
    let places = reverse_mapping(&order);
    assert_eq!(8, order.len());
    for (i, &chemical) in order.iter().enumerate() {
        assert_eq!(i, places[chemical]);
        for &(need, _) in &graph.chemical(chemical).deps {
            assert!(places[need] > i);
        }
    }
    let fuel = graph.lookup(b"FUEL").unwrap();
    let ore = graph.lookup(b"ORE").unwrap();
    assert_eq!(0, places[fuel]);
    assert_eq!(7, places[ore]);
    assert_eq!(Some(165), ore_needed_in(&graph, &order, &places, fuel, ore, 1));
    // What a unit of AB needs: 3 A and 4 B, of batches of 2 and 3.
    let ab = graph.lookup(b"AB").unwrap();
    assert_eq!(Some(2 * 9 + 2 * 8), ore_needed_in(&graph, &order, &places, ab, ore, 1));
    // Ore is made of nothing: what is asked of it stays behind.
    assert_eq!(None, ore_needed_in(&graph, &order, &places, ore, fuel, 5));
    assert_eq!(Some(5), ore_needed_in(&graph, &order, &places, ore, ore, 5));

    let degs = indegrees(&graph);
    let of = |label: &[u8]| degs[graph.lookup(label).unwrap()];
    assert_eq!(3, of(b"ORE"));
    assert_eq!(2, of(b"A"));
    assert_eq!(2, of(b"B"));
    assert_eq!(2, of(b"C"));
    assert_eq!(1, of(b"AB"));
    assert_eq!(0, of(b"FUEL"));
}

#[test]
fn reactions_in_a_circle() {
    let circle = read_graph(b"1 ORE, 1 B => 1 A\n1 A => 1 B\n1 B => 1 FUEL").unwrap();
    assert_eq!(None, top_sort(&circle));
    assert_eq!(None, ore_needed(&circle, 1));
    assert_eq!(None, fuel_produced(&circle, 100));
    let own = read_graph(b"1 ORE, 1 FUEL => 2 FUEL").unwrap();
    assert_eq!(None, top_sort(&own));
}

#[test]
fn graphs_without_fuel_or_ore() {
    let no_fuel = read_graph(b"1 ORE => 1 A").unwrap();
    assert_eq!(None, ore_needed(&no_fuel, 1));
    assert_eq!(None, fuel_produced(&no_fuel, 1));
    let empty = read_graph(b"").unwrap();
    assert_eq!(0, empty.len());
    assert_eq!(Some(vec![]), top_sort(&empty));
    assert_eq!(None, ore_needed(&empty, 1));
    // Something is needed that does not reduce to ore.
    let mut loose = Graph::new();
    assert!(loose.add_reaction(b"FUEL", 1, &vec![(&b"ORE"[..], 1), (&b"X"[..], 1)]));
    let order = top_sort(&loose).unwrap();
    let places = reverse_mapping(&order);
    let fuel = loose.lookup(b"FUEL").unwrap();
    let ore = loose.lookup(b"ORE").unwrap();
    assert_eq!(None, ore_needed_in(&loose, &order, &places, fuel, ore, 1));
    assert_eq!(None, ore_needed_in(&loose, &order, &places, fuel, ore, 0));
}

#[test]
fn reactions_are_added() {
    let mut graph = Graph::new();
    assert!(graph.add_reaction(b"C", 1, &vec![(&b"A"[..], 7), (&b"B"[..], 1)]));
    assert_eq!(Some(0), graph.lookup(b"A"));
    assert_eq!(Some(1), graph.lookup(b"B"));
    assert_eq!(Some(2), graph.lookup(b"C"));
    assert_eq!(0, graph.chemical(0).amount);
    assert_eq!(1, graph.chemical(2).amount);
    assert_eq!(vec![(0, 7), (1, 1)], graph.chemical(2).deps);
    assert!(graph.named(2, b"C"));
    assert!(!graph.named(2, b"A"));
    // A second reaction for C, no amount, and no need are refused.
    assert!(!graph.add_reaction(b"C", 2, &vec![(&b"A"[..], 1)]));
    assert!(!graph.add_reaction(b"D", 0, &vec![(&b"A"[..], 1)]));
    assert!(!graph.add_reaction(b"D", 1, &vec![(&b"A"[..], 0)]));
    // The placeholder for A gets its reaction; a chemical that is needed twice
    // is needed as the last time says.
    assert!(graph.add_reaction(b"A", 10, &vec![(&b"ORE"[..], 10), (&b"ORE"[..], 3)]));
    assert_eq!(10, graph.chemical(0).amount);
    let ore = graph.lookup(b"ORE").unwrap();
    assert_eq!(vec![(ore, 3)], graph.chemical(0).deps);
}

#[test]
fn lines_of_reactions() {
    let (inputs, output) = read_chemicals(b"7 A, 1 B => 1 C").unwrap();
    assert_eq!(vec![(&b"A"[..], 7), (&b"B"[..], 1)], inputs);
    assert_eq!((&b"C"[..], 1), output);
    let (inputs, output) = read_chemicals(b"4294967295 x_1 => 007 Y2").unwrap();
    assert_eq!(vec![(&b"x_1"[..], u32::MAX)], inputs);
    assert_eq!((&b"Y2"[..], 7), output);
    for line in [
        "", "7 A", "7 A =>", "=> 1 C", "7 A => C", "7 A => 1", "7 A=> 1 C", "7 A =>1 C",
        "7 A,1 B => 1 C", "7 A , 1 B => 1 C", "7 A, => 1 C", ", 7 A => 1 C", "7 A => 1 C ",
        " 7 A => 1 C", "7  A => 1 C", "+7 A => 1 C", "-7 A => 1 C", "7 A => 1 C, 1 D",
        "7 A => 1 C => 1 D", "4294967296 A => 1 C", "7 A-B => 1 C", "a A => 1 C", "7 A = > 1 C",
    ] {
        assert!(read_chemicals(line.as_bytes()).is_none(), "{:?}", line);
    }
    // A chemical that no reaction makes, and a reaction that is given twice.
    assert!(read_graph(b"1 A => 1 FUEL").is_none());
    assert!(read_graph(b"1 ORE => 1 FUEL\n2 ORE => 1 FUEL").is_none());
    assert!(read_graph(b"1 ORE => 1 FUEL\nnonsense").is_none());
    assert!(read_graph(b"0 ORE => 1 FUEL").is_none());
    assert!(read_graph(b"1 ORE => 0 FUEL").is_none());
    assert!(read_graph(b"1 ORE => 1 FUEL\r\n").is_some());
}
