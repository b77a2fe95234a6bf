//! The combined table: each record with its strength, the degree of its
//! secondary node and the impact score they give, highest impact first.
use vstd::prelude::*;
use crate::degree::{rows_view, DegreeRow};
use crate::model::Mapping;
use crate::ranking::{is_stable_desc_order, stable_desc_order};
use crate::strength::StrengthTable;

verus! {

/// Degree that the ranking `rows` gives to node `id`: that of the first row
/// with that id, or 0 if none has it.
pub open spec fn frequency_in(rows: Seq<(Seq<char>, nat)>, id: Seq<char>) -> nat
    decreases rows.len(),
{
    if rows.len() == 0 {
        0
    } else if rows[0].0 == id {
        rows[0].1
    } else {
        frequency_in(rows.drop_first(), id)
    }
}

/// One row of the combined table. `strength` is in tenths and
/// `impact_score` in hundredths, so that the score `frequency * strength / 10`
/// of a strength between 0 and 1 is exactly `frequency * strength` here.
pub struct RankedRow {
    pub veris_id: String,
    pub mitre_id: String,
    pub mapping_type: String,
    pub strength: u64,
    pub frequency: u64,
    pub impact_score: u128,
    pub technology_domain: String,
    pub creation_date: String,
}

/// `row` is the combined row of record `m`.
pub open spec fn row_of(row: RankedRow, m: Mapping, ranking: Seq<(Seq<char>, nat)>, table: StrengthTable) -> bool {
    &&& row.veris_id@ == m.capability_id@
    &&& row.mitre_id@ == m.attack_object_id@
    &&& row.mapping_type@ == m.mapping_type@
    &&& row.strength == table.spec_strength(m.mapping_type@)
    &&& row.frequency == frequency_in(ranking, m.attack_object_id@)
    &&& row.impact_score == row.frequency * row.strength
    &&& row.technology_domain@ == m.technology_domain@
    &&& row.creation_date@ == m.creation_date@
}

/// Impact score of each record, by record index.
pub open spec fn impact_keys(mappings: Seq<Mapping>, ranking: Seq<(Seq<char>, nat)>, table: StrengthTable) -> Seq<u128> {
    mappings.map_values(
        |m: Mapping| (frequency_in(ranking, m.attack_object_id@) * table.spec_strength(m.mapping_type@)) as u128,
    )
}

/// The degree of node `id` in `ranking` (see `frequency_in`).
pub fn lookup_frequency(ranking: &Vec<DegreeRow>, id: &String) -> (f: u64)
    ensures
        f == frequency_in(rows_view(ranking@), id@),
{
    let ghost rows = rows_view(ranking@);
    let mut i: usize = 0;
    assert(rows.skip(0) =~= rows);
    while i < ranking.len()
        invariant
            rows == rows_view(ranking@),
            i <= ranking@.len(),
            frequency_in(rows, id@) == frequency_in(rows.skip(i as int), id@),
        decreases ranking@.len() - i,
    {
        assert(rows.skip(i as int).drop_first() =~= rows.skip(i + 1));
        assert(rows.skip(i as int)[0] == ranking@[i as int]@);
        if ranking[i].id == *id {
            return ranking[i].degree;
        }
        i = i + 1;
    }
    assert(rows.skip(i as int) =~= Seq::<(Seq<char>, nat)>::empty());
    0
}

/// One combined row per record, the frequency of a record being the degree
/// that `node_degree_analysis` gives its secondary node, sorted by impact
/// score, highest first; rows of equal score keep the order of the records.
pub fn prepare_combined_data(
    mappings: &Vec<Mapping>,
    node_degree_analysis: &Vec<DegreeRow>,
    table: &StrengthTable,
) -> (r: Vec<RankedRow>)
    requires
        table.wf(),
    ensures
        exists|order: Seq<usize>|
            is_stable_desc_order(impact_keys(mappings@, rows_view(node_degree_analysis@), *table), order)
                && r@.len() == order.len() && forall|k: int|
                0 <= k < order.len() ==> row_of(
                    #[trigger] r@[k],
                    mappings@[order[k] as int],
                    rows_view(node_degree_analysis@),
                    *table,
                ),
{
    let ghost ranking = rows_view(node_degree_analysis@);
    let ghost keys_spec = impact_keys(mappings@, ranking, *table);
    let mut rows: Vec<RankedRow> = Vec::new();
    let mut keys: Vec<u128> = Vec::new();
    let mut k: usize = 0;
    while k < mappings.len()
        invariant
            table.wf(),
            ranking == rows_view(node_degree_analysis@),
            keys_spec == impact_keys(mappings@, ranking, *table),
            k <= mappings@.len(),
            rows@.len() == k,
            keys@ == keys_spec.subrange(0, k as int),
            forall|j: int| 0 <= j < k ==> row_of(#[trigger] rows@[j], mappings@[j], ranking, *table),
        decreases mappings@.len() - k,
    {
        let m = &mappings[k];
        let strength = table.strength_of(&m.mapping_type);
        let frequency = lookup_frequency(node_degree_analysis, &m.attack_object_id);
        assert((frequency as u128) * (strength as u128) <= 10 * 0xffff_ffff_ffff_ffffu128) by (nonlinear_arith)
            requires
                frequency <= 0xffff_ffff_ffff_ffffu64,
                strength <= 10,
        ;
        let impact_score = (frequency as u128) * (strength as u128);
        rows.push(
            RankedRow {
                veris_id: m.capability_id.clone(),
                mitre_id: m.attack_object_id.clone(),
                mapping_type: m.mapping_type.clone(),
                strength,
                frequency,
                impact_score,
                technology_domain: m.technology_domain.clone(),
                creation_date: m.creation_date.clone(),
            },
        );
        keys.push(impact_score);
        k = k + 1;
        assert(keys@ =~= keys_spec.subrange(0, k as int));
    }
    assert(keys_spec.subrange(0, k as int) =~= keys_spec);
    let order = stable_desc_order(&keys);
    let mut r: Vec<RankedRow> = Vec::new();
    let mut i: usize = 0;
    while i < order.len()
        invariant
            table.wf(),
            ranking == rows_view(node_degree_analysis@),
            is_stable_desc_order(keys_spec, order@),
            keys_spec.len() == mappings@.len(),
            rows@.len() == mappings@.len(),
            forall|j: int| 0 <= j < rows@.len() ==> row_of(#[trigger] rows@[j], mappings@[j], ranking, *table),
            i <= order@.len(),
            r@.len() == i,
            forall|j: int| 0 <= j < i ==> row_of(#[trigger] r@[j], mappings@[order@[j] as int], ranking, *table),
        decreases order@.len() - i,
    {
        let src = &rows[order[i]];
        assert(row_of(rows@[order@[i as int] as int], mappings@[order@[i as int] as int], ranking, *table));
        let row = RankedRow {
            veris_id: src.veris_id.clone(),
            mitre_id: src.mitre_id.clone(),
            mapping_type: src.mapping_type.clone(),
            strength: src.strength,
            frequency: src.frequency,
            impact_score: src.impact_score,
            technology_domain: src.technology_domain.clone(),
            creation_date: src.creation_date.clone(),
        };
        r.push(row);
        i = i + 1;
    }
    r
}

} // verus!
