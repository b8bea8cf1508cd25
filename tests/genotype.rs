use lsystem_explorer_core::codec::{join_source_code, DECOMPOSITION_SEPARATOR};
use lsystem_explorer_core::genotype::{
    blend_materials, evaluate_genotype, GrammarOperators, MaterialSlot, PlantGenotype,
    SerializableMaterial,
};
use lsystem_explorer_core::grammar::reconstruct_source;
use lsystem_explorer_core::genotype::{scale_by, shift_by};
use rand::SeedableRng;
use rand_pcg::Pcg64;
use symbios::system::crossover::CrossoverConfig;
use symbios::system::mutate::{MutationConfig, StructuralMutationConfig};
use symbios::System;

struct SymbiosOps;

impl GrammarOperators for SymbiosOps {
    fn perturb(&self, system: &mut System, rng: &mut Pcg64, rate: u32) {
        let rate = rate as f64 / 1000.0;
        let config = MutationConfig {
            rule_probability_rate: rate,
            rule_probability_strength: 0.2,
            constant_rate: rate,
            constant_strength: 0.3,
            ..MutationConfig::default()
        };
        system.mutate_with_rng(rng, &config);
    }

    fn restructure(&self, system: &mut System, rng: &mut Pcg64, rate: u32) {
        let rate = rate as f64 / 1000.0;
        let config = StructuralMutationConfig {
            successor_rate: rate * 0.3,
            insert_rate: 0.1,
            delete_rate: 0.1,
            swap_rate: 0.2,
            bytecode_rate: rate * 0.2,
            op_rate: 0.1,
            push_perturbation: 0.5,
        };
        system.structural_mutate_with_rng(rng, &config);
    }

    fn recombine(&self, a: &System, b: &System, rng: &mut Pcg64, blend: u32) -> Option<System> {
        let config = CrossoverConfig {
            rule_bias: 0.5,
            constant_blend: (1000 - blend.min(1000)) as f64 / 1000.0,
        };
        a.crossover_with_rng(b, rng, &config).ok()
    }
}

fn same(a: &PlantGenotype, b: &PlantGenotype) -> bool {
    a.source_code == b.source_code
        && a.finalization_code == b.finalization_code
        && a.materials == b.materials
        && a.iterations == b.iterations
        && a.angle == b.angle
        && a.step == b.step
        && a.width == b.width
        && a.seed == b.seed
}

fn material(v: u32) -> SerializableMaterial {
    SerializableMaterial {
        base_r: v,
        base_g: v,
        base_b: v,
        emission_r: v,
        emission_g: v,
        emission_b: v,
        emission_strength: v,
        roughness: v,
        metallic: v,
        uv_scale: v,
    }
}

#[test]
fn test_parse_simple_genotype() {
    let genotype = PlantGenotype::new("omega: F\nF -> F F".to_string());
    let system = genotype.parse();
    assert!(system.is_some());
}

#[test]
fn test_mutate_preserves_structure() {
    let genotype = PlantGenotype::new("omega: F\nF -> F [ + F ] F".to_string());
    let mut mutated = genotype.clone();

    let mut rng = Pcg64::seed_from_u64(42);
    mutated.mutate(&SymbiosOps, &mut rng, 500);

    assert!(mutated.parse().is_some());
}

#[test]
fn test_crossover_produces_valid_offspring() {
    let parent_a = PlantGenotype::new("omega: A\nA -> A B".to_string());
    let parent_b = PlantGenotype::new("omega: A\nA -> A A".to_string());

    let mut rng = Pcg64::seed_from_u64(42);
    let offspring = parent_a.crossover(&parent_b, &SymbiosOps, &mut rng);

    assert!(offspring.parse().is_some());
}

#[test]
fn test_reconstruct_source_preserves_mutated_constants() {
    let source = "#define angle 25.0\nomega: F\nF -> F [ + F ] F".to_string();
    let genotype = PlantGenotype::new(source);

    let mut system = genotype.parse().unwrap();
    system.constants.insert("angle".to_string(), 45.0);

    let reconstructed = reconstruct_source(&system, &genotype.source_code);

    assert!(
        reconstructed.contains("#define angle 45"),
        "Expected mutated angle=45, got: {}",
        reconstructed
    );
    assert!(
        !reconstructed.contains("#define angle 25"),
        "Should not contain old angle=25"
    );
}

#[test]
fn test_reconstruct_source_places_define_before_omega() {
    let source = "#define len 2.0\nomega: F(len)\nF(x) -> F(x) F(x)".to_string();
    let genotype = PlantGenotype::new(source);

    let system = genotype.parse().unwrap();
    let reconstructed = reconstruct_source(&system, &genotype.source_code);

    let define_pos = reconstructed.find("#define len");
    let omega_pos = reconstructed.find("omega:");

    assert!(
        define_pos.is_some() && omega_pos.is_some(),
        "Both #define and omega should be present in: {}",
        reconstructed
    );
    assert!(
        define_pos.unwrap() < omega_pos.unwrap(),
        "#define should appear before omega to avoid undefined constant errors.\nGot: {}",
        reconstructed
    );
}

#[test]
fn mutation_at_half_rate_keeps_simple_grammar_parseable() {
    for seed in 0..20u64 {
        let mut g = PlantGenotype::new("omega: F\nF -> F F".to_string());
        let mut rng = Pcg64::seed_from_u64(seed);
        g.mutate(&SymbiosOps, &mut rng, 500);
        assert!(g.parse().is_some(), "seed {} gave {}", seed, g.source_code);
    }
}

#[test]
fn injected_constant_replaces_old_define_before_omega() {
    let g = PlantGenotype::new("#define angle 25.0\nomega: F\nF -> F [ + F ] F".to_string());
    let mut system = g.parse().unwrap();
    system.constants.insert("angle".to_string(), 45.0);
    let text = reconstruct_source(&system, &g.source_code);
    assert!(text.contains("#define angle 45"));
    assert!(!text.contains("#define angle 25"));
    assert!(text.find("#define angle").unwrap() < text.find("omega:").unwrap());
}

#[test]
fn reconstruction_reparses_with_same_omega() {
    let source = "// a plant\n#define a 1.5\nomega: A\nA -> A B\nB -> A";
    let g = PlantGenotype::new(source.to_string());
    let system = g.parse().unwrap();
    let text = reconstruct_source(&system, source);
    assert!(text.starts_with("// a plant\n#define a 1.5\nomega: A"));
    let again = PlantGenotype::new(text.clone()).parse();
    assert!(again.is_some(), "{}", text);
    assert_eq!(text.lines().filter(|l| l.contains("->")).count(), 2);
}

#[test]
fn parse_fails_without_omega_or_rules() {
    let g = PlantGenotype::new("// nothing\njust words".to_string());
    assert!(g.parse().is_none());
}

#[test]
fn parse_accepts_rules_without_omega() {
    let g = PlantGenotype::new("F -> F F".to_string());
    assert!(g.parse().is_some());
}

#[test]
fn define_is_evaluated_before_use() {
    let g = PlantGenotype::new("#define n 2\nomega: A(n)\nA(x) -> A(x)".to_string());
    assert!(g.parse().is_some());
    let h = PlantGenotype::new("omega: A(n)\nA(x) -> A(x)".to_string());
    assert!(h.parse().is_none());
}

#[test]
fn one_define_line_per_constant() {
    let g = PlantGenotype::new("#define b 1\n#define a 2\nomega: F(a)\nF(x) -> F(x)".to_string());
    let system = g.parse().unwrap();
    let text = reconstruct_source(&system, &g.source_code);
    assert_eq!(text.matches("#define a ").count(), 1);
    assert_eq!(text.matches("#define b ").count(), 1);
    assert!(text.find("#define a").unwrap() < text.find("#define b").unwrap());
}

#[test]
fn shifts_and_scales_clamp_exactly() {
    use_shift_and_scale();
}

#[test]
fn parse_fails_on_bad_rule() {
    let g = PlantGenotype::new("omega: A(1)\nA(age) -> A(age)".to_string());
    assert!(g.parse().is_none());
}

#[test]
fn mutation_at_zero_rate_changes_nothing() {
    let g = PlantGenotype::new("omega: F\nF -> F F".to_string());
    let mut m = g.clone();
    let mut rng = Pcg64::seed_from_u64(7);
    m.mutate(&SymbiosOps, &mut rng, 0);
    assert!(same(&g, &m));
}

#[test]
fn mutation_of_unparseable_source_changes_nothing() {
    let g = PlantGenotype::new("this is not a grammar".to_string());
    let mut m = g.clone();
    let mut rng = Pcg64::seed_from_u64(7);
    m.mutate(&SymbiosOps, &mut rng, 1000);
    assert!(same(&g, &m));
}

#[test]
fn mutation_keeps_scalars_in_range() {
    for seed in 0..30u64 {
        let mut g = PlantGenotype::new("omega: F\nF -> F F".to_string());
        g.materials.push(MaterialSlot { slot: 1, material: material(990) });
        let mut rng = Pcg64::seed_from_u64(seed);
        g.mutate(&SymbiosOps, &mut rng, 1000);
        assert!(g.angle >= 5000 && g.angle <= 90000);
        assert!(g.step >= 100 && g.step <= 10000);
        assert!(g.width >= 10 && g.width <= 1000);
        let m = g.materials[0].material;
        assert!(m.base_r <= 1000 && m.base_r >= 940);
        assert_eq!(m.metallic, 990);
        assert_eq!(g.materials[0].slot, 1);
    }
}

#[test]
fn crossover_with_garbage_parent_returns_parent_a() {
    let mut a = PlantGenotype::new("garbage without rules".to_string());
    a.seed = 9;
    a.angle = 30000;
    let b = PlantGenotype::new("omega: A\nA -> A A".to_string());
    let mut rng = Pcg64::seed_from_u64(1);
    let c = a.crossover(&b, &SymbiosOps, &mut rng);
    assert!(same(&a, &c));
}

#[test]
fn crossover_with_garbage_parent_b_returns_parent_a() {
    let a = PlantGenotype::new("omega: A\nA -> A B".to_string());
    let b = PlantGenotype::new("no grammar here".to_string());
    let mut rng = Pcg64::seed_from_u64(1);
    let c = a.crossover(&b, &SymbiosOps, &mut rng);
    assert!(same(&a, &c));
}

#[test]
fn crossover_interpolates_parameters() {
    let mut a = PlantGenotype::new("omega: A\nA -> A B".to_string());
    let mut b = PlantGenotype::new("omega: A\nA -> A A".to_string());
    a.angle = 10000;
    b.angle = 20000;
    a.finalization_code = "X -> Y".to_string();
    let mut rng = Pcg64::seed_from_u64(3);
    let c = a.crossover(&b, &SymbiosOps, &mut rng);
    assert!(c.angle >= 10000 && c.angle <= 20000);
    assert_eq!(c.step, 1000);
    assert!(c.finalization_code == "X -> Y" || c.finalization_code.is_empty());
    assert!(c.parse().is_some());
}

#[test]
fn fitness_counts_rule_lines_and_materials() {
    let mut g = PlantGenotype::new("omega: F\nF -> F F\n// x -> y\nG -> G".to_string());
    assert_eq!(evaluate_genotype(&g), 30);
    g.materials.push(MaterialSlot { slot: 0, material: SerializableMaterial::default() });
    g.materials.push(MaterialSlot { slot: 3, material: SerializableMaterial::default() });
    assert_eq!(evaluate_genotype(&g), 40);
    let empty = PlantGenotype::new(String::new());
    assert_eq!(evaluate_genotype(&empty), 0);
}

#[test]
fn blend_interpolates_shared_slots_and_copies_others() {
    let a = vec![
        MaterialSlot { slot: 0, material: material(1000) },
        MaterialSlot { slot: 1, material: material(200) },
    ];
    let b = vec![
        MaterialSlot { slot: 0, material: material(0) },
        MaterialSlot { slot: 2, material: material(600) },
    ];
    let r = blend_materials(&a, &b, 250);
    assert_eq!(r.len(), 3);
    let find = |k: u8| r.iter().find(|m| m.slot == k).unwrap().material;
    assert_eq!(find(0), material(250));
    assert_eq!(find(1), material(200));
    assert_eq!(find(2), material(600));
}

#[test]
fn new_genotype_has_default_parameters() {
    let g = PlantGenotype::new("omega: F".to_string());
    assert_eq!(g.iterations, 4);
    assert_eq!(g.angle, 25000);
    assert_eq!(g.step, 1000);
    assert_eq!(g.width, 100);
    assert_eq!(g.seed, 42);
    assert!(g.finalization_code.is_empty());
    assert!(g.materials.is_empty());
}

#[test]
fn default_material_is_white_and_half_rough() {
    let m = SerializableMaterial::default();
    assert_eq!(m.base_r, 1000);
    assert_eq!(m.roughness, 500);
    assert_eq!(m.uv_scale, 1000);
    assert_eq!(m.emission_strength, 0);
}

use lsystem_explorer_core::nursery::{LSystemConfig, NurseryState};

fn config() -> LSystemConfig {
    LSystemConfig {
        source_code: "#define len 2.0\nomega: F(len)\nF(x) -> F(x) [ + F(x) ] F(x)".to_string(),
        finalization_code: String::new(),
        iterations: 3,
        default_angle: 25000,
        step_size: 1000,
        default_width: 100,
        seed: 7,
    }
}

fn ready_nursery() -> NurseryState {
    let mut n = NurseryState::new();
    let mats = vec![MaterialSlot { slot: 0, material: SerializableMaterial::default() }];
    n.initialize_from_editor(&config(), &mats, &SymbiosOps);
    n
}

fn same_population(a: &NurseryState, b: &NurseryState) -> bool {
    a.population.len() == b.population.len()
        && a.population
            .iter()
            .zip(b.population.iter())
            .all(|(x, y)| same(&x.genotype, &y.genotype) && x.fitness == y.fitness)
}

#[test]
fn initialize_fills_grid_with_base_first() {
    let n = ready_nursery();
    assert_eq!(n.population.len(), 9);
    assert_eq!(n.population_size(), 9);
    assert_eq!(n.generation, 0);
    assert_eq!(n.selected, vec![0]);
    let g = &n.population[0].genotype;
    assert_eq!(g.source_code, config().source_code);
    assert_eq!(g.seed, 7);
    assert_eq!(g.iterations, 3);
    for p in &n.population {
        assert!(p.genotype.parse().is_some());
        assert_eq!(p.fitness, evaluate_genotype(&p.genotype));
    }
}

#[test]
fn breed_keeps_champions_first() {
    let mut n = ready_nursery();
    n.toggle_selection(4);
    n.toggle_selection(2);
    let champions: Vec<PlantGenotype> = n.selected.iter().map(|&i| n.population[i].genotype.clone()).collect();
    let k = champions.len();
    assert_eq!(k, 3);
    n.breed(&SymbiosOps);
    assert_eq!(n.generation, 1);
    assert_eq!(n.population.len(), 9);
    assert_eq!(n.selected, vec![0, 1, 2]);
    for (i, c) in champions.iter().enumerate() {
        assert!(same(&n.population[i].genotype, c));
    }
}

#[test]
fn breed_without_champions_mutates_everything() {
    let mut n = ready_nursery();
    n.toggle_selection(0);
    assert!(n.selected.is_empty());
    n.breed(&SymbiosOps);
    assert_eq!(n.population.len(), 9);
    assert!(n.selected.is_empty());
    assert_eq!(n.generation, 1);
}

#[test]
fn population_size_holds_across_calls() {
    let mut n = ready_nursery();
    n.breed(&SymbiosOps);
    assert_eq!(n.population.len(), 9);
    n.mutate_all(&SymbiosOps);
    assert_eq!(n.population.len(), 9);
    n.resize_population(4, &SymbiosOps);
    assert_eq!(n.population.len(), 16);
    n.resize_population(2, &SymbiosOps);
    assert_eq!(n.population.len(), 4);
    n.replace_selected(PlantGenotype::new("omega: A\nA -> A B".to_string()));
    assert_eq!(n.population.len(), 4);
    n.breed(&SymbiosOps);
    assert_eq!(n.population.len(), n.grid_size * n.grid_size);
}

#[test]
fn identical_call_sequences_are_deterministic() {
    let run = || {
        let mut n = ready_nursery();
        n.toggle_selection(3);
        n.breed(&SymbiosOps);
        n.mutate_all(&SymbiosOps);
        n.resize_population(4, &SymbiosOps);
        n.breed(&SymbiosOps);
        n
    };
    let a = run();
    let b = run();
    assert!(same_population(&a, &b));
}

#[test]
fn mutate_all_leaves_champions_untouched() {
    let mut n = ready_nursery();
    n.toggle_selection(5);
    let before0 = n.population[0].genotype.clone();
    let before5 = n.population[5].genotype.clone();
    n.mutate_all(&SymbiosOps);
    assert_eq!(n.generation, 1);
    assert!(same(&n.population[0].genotype, &before0));
    assert!(same(&n.population[5].genotype, &before5));
}

#[test]
fn shrinking_drops_out_of_range_champions() {
    let mut n = ready_nursery();
    n.toggle_selection(8);
    n.toggle_selection(3);
    n.resize_population(2, &SymbiosOps);
    assert_eq!(n.grid_size, 2);
    let mut sel = n.selected.clone();
    sel.sort();
    assert_eq!(sel, vec![0, 3]);
}

#[test]
fn growing_keeps_existing_individuals() {
    let mut n = ready_nursery();
    let first = n.population[1].genotype.clone();
    n.resize_population(3, &SymbiosOps);
    assert_eq!(n.population.len(), 9);
    n.resize_population(4, &SymbiosOps);
    assert!(same(&n.population[1].genotype, &first));
    assert_eq!(n.population.len(), 16);
}

#[test]
fn replace_selected_gives_distinct_seeds() {
    let mut n = ready_nursery();
    n.toggle_selection(2);
    let g = PlantGenotype::new("omega: A\nA -> A B".to_string());
    n.replace_selected(g);
    assert!(n.needs_3d_rebuild);
    assert_eq!(n.population[0].genotype.source_code, "omega: A\nA -> A B");
    assert_eq!(n.population[2].genotype.source_code, "omega: A\nA -> A B");
    assert_eq!(n.population[0].genotype.seed, 42);
    assert_eq!(n.population[2].genotype.seed, 44);
    assert_eq!(n.population[2].fitness, 10);
}

#[test]
fn replace_selected_seeds_differ_in_any_selection_order() {
    let mut n = ready_nursery();
    n.toggle_selection(0);
    n.toggle_selection(1);
    n.toggle_selection(0);
    assert_eq!(n.selected, vec![1, 0]);
    n.replace_selected(PlantGenotype::new("omega: A\nA -> A B".to_string()));
    assert_ne!(n.population[0].genotype.seed, n.population[1].genotype.seed);
    assert_eq!(n.generation, 0);
}

#[test]
fn resizing_an_empty_nursery_changes_nothing() {
    let mut n = NurseryState::new();
    n.resize_population(5, &SymbiosOps);
    assert_eq!(n.grid_size, 3);
    assert!(n.population.is_empty());
}

#[test]
fn crossover_with_refused_start_string_returns_parent_a() {
    let a = PlantGenotype::new("omega: A(1)\nA(age) -> A(age)".to_string());
    let b = PlantGenotype::new("omega: A\nA -> A A".to_string());
    let mut rng = Pcg64::seed_from_u64(5);
    let c = a.crossover(&b, &SymbiosOps, &mut rng);
    assert!(same(&a, &c));
}

#[test]
fn finish_crossover_builds_exact_offspring() {
    let mut a = PlantGenotype::new("omega: A\nA -> A B".to_string());
    let mut b = PlantGenotype::new("omega: A\nA -> A A".to_string());
    a.angle = 10000;
    b.angle = 30000;
    a.iterations = 2;
    b.iterations = 7;
    b.finalization_code = "B -> C".to_string();
    let child = b.parse();
    let c = a.finish_crossover(&b, child, 250, false, true, 99);
    assert_eq!(c.angle, 25000);
    assert_eq!(c.iterations, 2);
    assert_eq!(c.finalization_code, "B -> C");
    assert_eq!(c.seed, 99);
    assert!(c.source_code.starts_with("omega: A"));
    assert!(c.source_code.contains("A -> A A"));
    let same_a = a.finish_crossover(&b, None, 250, false, true, 99);
    assert!(same(&a, &same_a));
}

#[test]
fn unicode_whitespace_is_trimmed_when_joining() {
    assert_eq!(join_source_code("F", "\u{0C}"), "F");
    assert_eq!(join_source_code("F\u{0C}", "G"), format!("F\n{}\nG", DECOMPOSITION_SEPARATOR));
}

#[test]
fn toggle_flips_membership_and_ignores_out_of_range() {
    let mut n = ready_nursery();
    n.toggle_selection(4);
    assert!(n.selected.contains(&4));
    n.toggle_selection(4);
    assert!(!n.selected.contains(&4));
    n.toggle_selection(100);
    assert_eq!(n.selected, vec![0]);
}

#[test]
fn get_genotype_returns_copies_in_range() {
    let n = ready_nursery();
    assert!(n.get_genotype(8).is_some());
    assert!(n.get_genotype(9).is_none());
}

#[test]
fn uninitialized_nursery_ignores_breeding() {
    let mut n = NurseryState::new();
    n.breed(&SymbiosOps);
    n.mutate_all(&SymbiosOps);
    assert!(n.population.is_empty());
    assert_eq!(n.generation, 0);
}

fn use_shift_and_scale() {
    assert_eq!(shift_by(25000, 0, 5000, 5000, 90000), 20000);
    assert_eq!(shift_by(25000, 10000, 5000, 5000, 90000), 30000);
    assert_eq!(shift_by(6000, 0, 5000, 5000, 90000), 5000);
    assert_eq!(shift_by(1000, 100, 50, 0, 1000), 1000);
    assert_eq!(scale_by(1000, 900, 100, 10000), 900);
    assert_eq!(scale_by(1000, 1100, 100, 10000), 1100);
    assert_eq!(scale_by(10000, 1100, 100, 10000), 10000);
    assert_eq!(scale_by(100, 900, 100, 10000), 100);
}
