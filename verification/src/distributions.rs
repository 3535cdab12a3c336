//! Return distributions: the shapes a profile's returns can take, how a
//! shape is laid out as rows (a regime model's two distributions before the
//! row that names them) and how it is read back.
use vstd::prelude::*;

use crate::error::{joined, owned, ApiError};
use crate::rows::DistributionRow;
use crate::text::same_text;

verus! {

/// Deepest a regime model may nest.
pub const MAX_DISTRIBUTION_DEPTH: usize = 8;

/// The bit pattern of the double 5.0, the degrees of freedom a Student-t
/// row without one reads as.
pub const FIVE_BITS: u64 = 0x4014_0000_0000_0000;

/// A distribution as a client sends it. Numbers are carried as the bit
/// pattern of their IEEE 754 double: nothing here computes with them.
pub enum DistributionSpec {
    /// No distribution at all; stored under the kind `None`.
    NoDistribution,
    Fixed { rate_bits: u64 },
    Normal { mean_bits: u64, std_dev_bits: u64 },
    LogNormal { mean_bits: u64, std_dev_bits: u64 },
    StudentT { mean_bits: u64, scale_bits: u64, df_bits: u64 },
    RegimeSwitching {
        bull: Box<DistributionSpec>,
        bear: Box<DistributionSpec>,
        bull_to_bear_bits: u64,
        bear_to_bull_bits: u64,
    },
    Bootstrap { preset: String, block_size: Option<i64> },
}

/// A distribution as a value.
pub enum DistributionModel {
    NoDistribution,
    Fixed(u64),
    Normal(u64, u64),
    LogNormal(u64, u64),
    StudentT(u64, u64, u64),
    RegimeSwitching(Box<DistributionModel>, Box<DistributionModel>, u64, u64),
    Bootstrap(Seq<char>, Option<i64>),
}

pub open spec fn distribution_model(d: DistributionSpec) -> DistributionModel
    decreases d,
{
    match d {
        DistributionSpec::NoDistribution => DistributionModel::NoDistribution,
        DistributionSpec::Fixed { rate_bits } => DistributionModel::Fixed(rate_bits),
        DistributionSpec::Normal { mean_bits, std_dev_bits } => DistributionModel::Normal(
            mean_bits,
            std_dev_bits,
        ),
        DistributionSpec::LogNormal { mean_bits, std_dev_bits } => DistributionModel::LogNormal(
            mean_bits,
            std_dev_bits,
        ),
        DistributionSpec::StudentT { mean_bits, scale_bits, df_bits } => DistributionModel::StudentT(
            mean_bits,
            scale_bits,
            df_bits,
        ),
        DistributionSpec::RegimeSwitching { bull, bear, bull_to_bear_bits, bear_to_bull_bits } =>
            DistributionModel::RegimeSwitching(
            Box::new(distribution_model(*bull)),
            Box::new(distribution_model(*bear)),
            bull_to_bear_bits,
            bear_to_bull_bits,
        ),
        DistributionSpec::Bootstrap { preset, block_size } => DistributionModel::Bootstrap(
            preset@,
            block_size,
        ),
    }
}

impl View for DistributionSpec {
    type V = DistributionModel;

    open spec fn view(&self) -> DistributionModel {
        distribution_model(*self)
    }
}

pub open spec fn distribution_count(m: DistributionModel) -> nat
    decreases m,
{
    match m {
        DistributionModel::RegimeSwitching(l, r, _, _) => 1 + distribution_count(*l)
            + distribution_count(*r),
        _ => 1,
    }
}

/// A stored row as plain values.
pub struct DistributionRowView {
    pub id: i64,
    pub kind: Seq<char>,
    pub rate_bits: Option<u64>,
    pub mean_bits: Option<u64>,
    pub std_dev_bits: Option<u64>,
    pub scale_bits: Option<u64>,
    pub df_bits: Option<u64>,
    pub bull_id: Option<i64>,
    pub bear_id: Option<i64>,
    pub bull_to_bear_bits: Option<u64>,
    pub bear_to_bull_bits: Option<u64>,
    pub history_preset: Option<Seq<char>>,
    pub block_size: Option<i64>,
}

pub open spec fn distribution_row_view(r: DistributionRow) -> DistributionRowView {
    DistributionRowView {
        id: r.id,
        kind: r.kind@,
        rate_bits: r.rate_bits,
        mean_bits: r.mean_bits,
        std_dev_bits: r.std_dev_bits,
        scale_bits: r.scale_bits,
        df_bits: r.df_bits,
        bull_id: r.bull_id,
        bear_id: r.bear_id,
        bull_to_bear_bits: r.bull_to_bear_bits,
        bear_to_bull_bits: r.bear_to_bull_bits,
        history_preset: match r.history_preset {
            Some(p) => Some(p@),
            None => None,
        },
        block_size: r.block_size,
    }
}

pub open spec fn distribution_row_views(v: Seq<DistributionRow>) -> Seq<DistributionRowView> {
    v.map_values(|r: DistributionRow| distribution_row_view(r))
}

/// The historical series a bootstrap may draw from.
pub open spec fn is_history_preset(p: Seq<char>) -> bool {
    p == "sp500"@ || p == "us_small_cap"@ || p == "us_tbills"@ || p == "us_long_bonds"@ || p == "intl_developed"@ || p == "emerging_markets"@ || p == "reits"@ || p == "gold"@ || p == "us_agg_bonds"@ || p == "us_corporate_bonds"@ || p == "tips"@
}

/// The presets, as the refusal lists them.
pub open spec fn preset_list() -> Seq<char> {
    "sp500, us_small_cap, us_tbills, us_long_bonds, intl_developed, emerging_markets, reits, gold, us_agg_bonds, us_corporate_bonds, tips"@
}

/// Why a distribution cannot be written.
pub enum DistributionFault {
    TooDeep,
    UnknownPreset(Seq<char>),
}

pub open spec fn distribution_error(f: DistributionFault, e: ApiError) -> bool {
    match f {
        DistributionFault::TooDeep => e matches ApiError::BadRequest(m) && m@
            == "distribution nests too deeply; regime models may not be recursive beyond 8 levels"@,
        DistributionFault::UnknownPreset(p) => e matches ApiError::BadRequest(m) && m@
            == "unknown history preset '"@ + p + "'; expected one of "@ + preset_list(),
    }
}

pub open spec fn blank_row(id: int, kind: Seq<char>) -> DistributionRowView {
    DistributionRowView {
        id: id as i64,
        kind,
        rate_bits: None,
        mean_bits: None,
        std_dev_bits: None,
        scale_bits: None,
        df_bits: None,
        bull_id: None,
        bear_id: None,
        bull_to_bear_bits: None,
        bear_to_bull_bits: None,
        history_preset: None,
        block_size: None,
    }
}

/// A leaf's own row.
pub open spec fn leaf_row(m: DistributionModel, id: int) -> DistributionRowView {
    match m {
        DistributionModel::Fixed(r) => DistributionRowView { rate_bits: Some(r), ..blank_row(id, "Fixed"@) },
        DistributionModel::Normal(a, s) => DistributionRowView {
            mean_bits: Some(a),
            std_dev_bits: Some(s),
            ..blank_row(id, "Normal"@)
        },
        DistributionModel::LogNormal(a, s) => DistributionRowView {
            mean_bits: Some(a),
            std_dev_bits: Some(s),
            ..blank_row(id, "LogNormal"@)
        },
        DistributionModel::StudentT(a, s, f) => DistributionRowView {
            mean_bits: Some(a),
            scale_bits: Some(s),
            df_bits: Some(f),
            ..blank_row(id, "StudentT"@)
        },
        DistributionModel::Bootstrap(p, b) => DistributionRowView {
            history_preset: Some(p),
            block_size: b,
            ..blank_row(id, "Bootstrap"@)
        },
        _ => blank_row(id, "None"@),
    }
}

/// A distribution laid out as rows numbered from `base`: its depth is
/// checked first; a regime model writes its bull distribution, then its
/// bear one, then its own row naming both; a bootstrap must name a known
/// preset.
pub open spec fn distribution_layout(m: DistributionModel, depth: nat, base: int) -> Result<
    Seq<DistributionRowView>,
    DistributionFault,
>
    decreases m,
{
    if depth > MAX_DISTRIBUTION_DEPTH {
        Err(DistributionFault::TooDeep)
    } else {
        match m {
            DistributionModel::RegimeSwitching(l, r, p, q) => match distribution_layout(*l, depth + 1, base) {
                Err(f) => Err(f),
                Ok(lr) => match distribution_layout(*r, depth + 1, base + lr.len()) {
                    Err(f) => Err(f),
                    Ok(rr) => Ok(
                        lr + rr + seq![
                            DistributionRowView {
                                bull_id: Some((base + lr.len() - 1) as i64),
                                bear_id: Some((base + lr.len() + rr.len() - 1) as i64),
                                bull_to_bear_bits: Some(p),
                                bear_to_bull_bits: Some(q),
                                ..blank_row(base + lr.len() + rr.len(), "RegimeSwitching"@)
                            },
                        ],
                    ),
                },
            },
            DistributionModel::Bootstrap(p, _) => if is_history_preset(p) {
                Ok(seq![leaf_row(m, base)])
            } else {
                Err(DistributionFault::UnknownPreset(p))
            },
            _ => Ok(seq![leaf_row(m, base)]),
        }
    }
}

proof fn lemma_distribution_len(m: DistributionModel, depth: nat, base: int)
    ensures
        distribution_layout(m, depth, base) matches Ok(rows) ==> rows.len() == distribution_count(m),
    decreases m,
{
    match m {
        DistributionModel::RegimeSwitching(l, r, _, _) => {
            lemma_distribution_len(*l, depth + 1, base);
            lemma_distribution_len(*r, depth + 1, base + distribution_count(*l));
        },
        _ => {},
    }
}

fn known_preset(p: &str) -> (r: bool)
    ensures
        r == is_history_preset(p@),
{
    same_text(p, "sp500") || same_text(p, "us_small_cap") || same_text(p, "us_tbills") || same_text(p, "us_long_bonds") || same_text(p, "intl_developed") || same_text(p, "emerging_markets") || same_text(p, "reits") || same_text(p, "gold") || same_text(p, "us_agg_bonds") || same_text(p, "us_corporate_bonds") || same_text(p, "tips")
}

fn leaf_row_of(spec: &DistributionSpec, id: i64) -> (r: DistributionRow)
    requires
        !(spec@ is RegimeSwitching),
    ensures
        distribution_row_view(r) == leaf_row(spec@, id as int),
{
    let mut row = DistributionRow {
        id,
        kind: owned("None"),
        rate_bits: None,
        mean_bits: None,
        std_dev_bits: None,
        scale_bits: None,
        df_bits: None,
        bull_id: None,
        bear_id: None,
        bull_to_bear_bits: None,
        bear_to_bull_bits: None,
        history_preset: None,
        block_size: None,
    };
    match spec {
        DistributionSpec::Fixed { rate_bits } => {
            row.kind = owned("Fixed");
            row.rate_bits = Some(*rate_bits);
        },
        DistributionSpec::Normal { mean_bits, std_dev_bits } => {
            row.kind = owned("Normal");
            row.mean_bits = Some(*mean_bits);
            row.std_dev_bits = Some(*std_dev_bits);
        },
        DistributionSpec::LogNormal { mean_bits, std_dev_bits } => {
            row.kind = owned("LogNormal");
            row.mean_bits = Some(*mean_bits);
            row.std_dev_bits = Some(*std_dev_bits);
        },
        DistributionSpec::StudentT { mean_bits, scale_bits, df_bits } => {
            row.kind = owned("StudentT");
            row.mean_bits = Some(*mean_bits);
            row.scale_bits = Some(*scale_bits);
            row.df_bits = Some(*df_bits);
        },
        DistributionSpec::Bootstrap { preset, block_size } => {
            row.kind = owned("Bootstrap");
            row.history_preset = Some(owned(preset.as_str()));
            row.block_size = *block_size;
        },
        _ => {},
    }
    row
}

/// Lay a distribution out as rows numbered from `base`, as
/// [`distribution_layout`] says.
pub fn distribution_rows(spec: &DistributionSpec, depth: usize, base: i64) -> (r: Result<
    Vec<DistributionRow>,
    ApiError,
>)
    requires
        base >= 0,
        base + distribution_count(spec@) <= i64::MAX,
    ensures
        match distribution_layout(spec@, depth as nat, base as int) {
            Ok(rows) => r matches Ok(v) && distribution_row_views(v@) == rows,
            Err(f) => r matches Err(e) && distribution_error(f, e),
        },
    decreases spec,
{
    if depth > MAX_DISTRIBUTION_DEPTH {
        return Err(
            ApiError::bad_request(
                "distribution nests too deeply; regime models may not be recursive beyond 8 levels",
            ),
        );
    }
    proof {
        lemma_distribution_len(spec@, depth as nat, base as int);
    }
    match spec {
        DistributionSpec::RegimeSwitching { bull, bear, bull_to_bear_bits, bear_to_bull_bits } => {
            proof {
                lemma_distribution_len(bull@, (depth + 1) as nat, base as int);
            }
            let mut rows = match distribution_rows(bull, depth + 1, base) {
                Ok(v) => v,
                Err(e) => return Err(e),
            };
            let nl = rows.len() as i64;
            proof {
                lemma_distribution_len(bear@, (depth + 1) as nat, base + nl);
            }
            let mut right = match distribution_rows(bear, depth + 1, base + nl) {
                Ok(v) => v,
                Err(e) => return Err(e),
            };
            let nr = right.len() as i64;
            let ghost lv = distribution_row_views(rows@);
            let ghost rv = distribution_row_views(right@);
            rows.append(&mut right);
            let node = DistributionRow {
                id: base + nl + nr,
                kind: owned("RegimeSwitching"),
                rate_bits: None,
                mean_bits: None,
                std_dev_bits: None,
                scale_bits: None,
                df_bits: None,
                bull_id: Some(base + nl - 1),
                bear_id: Some(base + nl + nr - 1),
                bull_to_bear_bits: Some(*bull_to_bear_bits),
                bear_to_bull_bits: Some(*bear_to_bull_bits),
                history_preset: None,
                block_size: None,
            };
            rows.push(node);
            assert(distribution_row_views(rows@) == lv + rv + seq![distribution_row_view(node)]);
            Ok(rows)
        },
        DistributionSpec::Bootstrap { preset, .. } => {
            if !known_preset(preset.as_str()) {
                let mut m = joined("unknown history preset '", preset.as_str());
                m.append("'; expected one of ");
                m.append("sp500, us_small_cap, us_tbills, us_long_bonds, intl_developed, emerging_markets, reits, gold, us_agg_bonds, us_corporate_bonds, tips");
                return Err(ApiError::BadRequest(m));
            }
            let v = vec![leaf_row_of(spec, base)];
            assert(distribution_row_views(v@) == seq![distribution_row_view(v@[0])]);
            Ok(v)
        },
        _ => {
            let v = vec![leaf_row_of(spec, base)];
            assert(distribution_row_views(v@) == seq![distribution_row_view(v@[0])]);
            Ok(v)
        },
    }
}

proof fn lemma_distribution_names()
    ensures
        "Fixed"@ != "Normal"@,
        "Fixed"@ != "LogNormal"@,
        "Fixed"@ != "StudentT"@,
        "Fixed"@ != "RegimeSwitching"@,
        "Fixed"@ != "Bootstrap"@,
        "Fixed"@ != "None"@,
        "Normal"@ != "LogNormal"@,
        "Normal"@ != "StudentT"@,
        "Normal"@ != "RegimeSwitching"@,
        "Normal"@ != "Bootstrap"@,
        "Normal"@ != "None"@,
        "LogNormal"@ != "StudentT"@,
        "LogNormal"@ != "RegimeSwitching"@,
        "LogNormal"@ != "Bootstrap"@,
        "LogNormal"@ != "None"@,
        "StudentT"@ != "RegimeSwitching"@,
        "StudentT"@ != "Bootstrap"@,
        "StudentT"@ != "None"@,
        "RegimeSwitching"@ != "Bootstrap"@,
        "RegimeSwitching"@ != "None"@,
        "Bootstrap"@ != "None"@,
{
    reveal_strlit("Fixed");
    reveal_strlit("Normal");
    reveal_strlit("LogNormal");
    reveal_strlit("StudentT");
    reveal_strlit("RegimeSwitching");
    reveal_strlit("Bootstrap");
    reveal_strlit("None");
    assert("Fixed"@.len() == 5);
    assert("Normal"@.len() == 6);
    assert("LogNormal"@.len() == 9);
    assert("StudentT"@.len() == 8);
    assert("RegimeSwitching"@.len() == 15);
    assert("Bootstrap"@.len() == 9);
    assert("None"@.len() == 4);
    assert("LogNormal"@[0] != "Bootstrap"@[0]);
}

/// Why rows cannot be read back as a distribution.
pub enum DistributionReadFault {
    Cyclic,
    Missing,
}

pub open spec fn distribution_read_error(f: DistributionReadFault, e: ApiError) -> bool {
    match f {
        DistributionReadFault::Cyclic => e matches ApiError::Internal(m) && m@
            == "distribution graph is cyclic"@,
        DistributionReadFault::Missing => e == ApiError::NotFound("distribution"),
    }
}

/// The position of the first row with this id, or -1.
pub open spec fn distribution_index(rows: Seq<DistributionRowView>, id: i64) -> int
    decreases rows.len(),
{
    if rows.len() == 0 {
        -1
    } else {
        let k = distribution_index(rows.drop_last(), id);
        if k >= 0 {
            k
        } else if rows.last().id == id {
            rows.len() - 1
        } else {
            -1
        }
    }
}

pub open spec fn bits_or(v: Option<u64>, d: u64) -> u64 {
    match v {
        Some(x) => x,
        None => d,
    }
}

pub open spec fn id_or_zero(v: Option<i64>) -> i64 {
    match v {
        Some(x) => x,
        None => 0,
    }
}

/// The distribution rooted at row `id`: past depth 8 the rows are taken to
/// loop; a missing number reads as zero (five degrees of freedom for a
/// Student-t), a missing preset as `sp500`, an unknown kind as no
/// distribution; a regime model reads its bull, then its bear distribution.
pub open spec fn read_distribution_model(rows: Seq<DistributionRowView>, id: i64, depth: nat) -> Result<
    DistributionModel,
    DistributionReadFault,
>
    decreases 9 - depth,
{
    if depth > MAX_DISTRIBUTION_DEPTH {
        Err(DistributionReadFault::Cyclic)
    } else {
        let i = distribution_index(rows, id);
        if i < 0 {
            Err(DistributionReadFault::Missing)
        } else {
            let r = rows[i];
            let k = r.kind;
            if k == "Fixed"@ {
                Ok(DistributionModel::Fixed(bits_or(r.rate_bits, 0)))
            } else if k == "Normal"@ {
                Ok(DistributionModel::Normal(bits_or(r.mean_bits, 0), bits_or(r.std_dev_bits, 0)))
            } else if k == "LogNormal"@ {
                Ok(DistributionModel::LogNormal(bits_or(r.mean_bits, 0), bits_or(r.std_dev_bits, 0)))
            } else if k == "StudentT"@ {
                Ok(
                    DistributionModel::StudentT(
                        bits_or(r.mean_bits, 0),
                        bits_or(r.scale_bits, 0),
                        bits_or(r.df_bits, FIVE_BITS),
                    ),
                )
            } else if k == "RegimeSwitching"@ {
                match read_distribution_model(rows, id_or_zero(r.bull_id), depth + 1) {
                    Err(f) => Err(f),
                    Ok(l) => match read_distribution_model(rows, id_or_zero(r.bear_id), depth + 1) {
                        Err(f) => Err(f),
                        Ok(b) => Ok(
                            DistributionModel::RegimeSwitching(
                                Box::new(l),
                                Box::new(b),
                                bits_or(r.bull_to_bear_bits, 0),
                                bits_or(r.bear_to_bull_bits, 0),
                            ),
                        ),
                    },
                }
            } else if k == "Bootstrap"@ {
                Ok(
                    DistributionModel::Bootstrap(
                        match r.history_preset {
                            Some(p) => p,
                            None => "sp500"@,
                        },
                        r.block_size,
                    ),
                )
            } else {
                Ok(DistributionModel::NoDistribution)
            }
        }
    }
}

proof fn lemma_distribution_index(rows: Seq<DistributionRowView>, id: i64)
    ensures
        distribution_index(rows, id) < rows.len(),
        distribution_index(rows, id) >= 0 ==> rows[distribution_index(rows, id)].id == id && forall|j: int|
            0 <= j < distribution_index(rows, id) ==> rows[j].id != id,
        distribution_index(rows, id) < 0 ==> (distribution_index(rows, id) == -1 && forall|j: int|
            0 <= j < rows.len() ==> rows[j].id != id),
    decreases rows.len(),
{
    if rows.len() > 0 {
        let d = rows.drop_last();
        lemma_distribution_index(d, id);
        assert forall|j: int| 0 <= j < d.len() implies d[j] == rows[j] by {}
    }
}

fn find_distribution_row(rows: &[DistributionRow], id: i64) -> (r: Option<usize>)
    ensures
        match r {
            Some(i) => i < rows@.len() && i as int == distribution_index(distribution_row_views(rows@), id),
            None => distribution_index(distribution_row_views(rows@), id) < 0,
        },
{
    let ghost v = distribution_row_views(rows@);
    let mut i: usize = 0;
    while i < rows.len()
        invariant
            i <= rows@.len(),
            v == distribution_row_views(rows@),
            forall|j: int| 0 <= j < i ==> v[j].id != id,
        decreases rows@.len() - i,
    {
        if rows[i].id == id {
            proof {
                lemma_distribution_index(v, id);
                let k = distribution_index(v, id);
                if k < 0 || k > i {
                    assert(v[i as int].id == id);
                }
            }
            return Some(i);
        }
        i = i + 1;
    }
    proof {
        lemma_distribution_index(v, id);
        let k = distribution_index(v, id);
        if k >= 0 {
            assert(v[k].id == id);
        }
    }
    None
}

fn bits_or_else(v: Option<u64>, d: u64) -> (r: u64)
    ensures
        r == bits_or(v, d),
{
    match v {
        Some(x) => x,
        None => d,
    }
}

/// Read the distribution rooted at row `id` back, as
/// [`read_distribution_model`] says.
pub fn read_distribution(rows: &[DistributionRow], id: i64, depth: usize) -> (r: Result<
    DistributionSpec,
    ApiError,
>)
    ensures
        match read_distribution_model(distribution_row_views(rows@), id, depth as nat) {
            Ok(m) => r matches Ok(d) && d@ == m,
            Err(f) => r matches Err(e) && distribution_read_error(f, e),
        },
    decreases 9 - depth,
{
    if depth > MAX_DISTRIBUTION_DEPTH {
        return Err(ApiError::internal("distribution graph is cyclic"));
    }
    let i = match find_distribution_row(rows, id) {
        Some(i) => i,
        None => return Err(ApiError::NotFound("distribution")),
    };
    let row = &rows[i];
    assert(distribution_row_views(rows@)[i as int] == distribution_row_view(*row));
    let k = row.kind.as_str();
    if same_text(k, "Fixed") {
        return Ok(DistributionSpec::Fixed { rate_bits: bits_or_else(row.rate_bits, 0) });
    }
    if same_text(k, "Normal") {
        return Ok(
            DistributionSpec::Normal {
                mean_bits: bits_or_else(row.mean_bits, 0),
                std_dev_bits: bits_or_else(row.std_dev_bits, 0),
            },
        );
    }
    if same_text(k, "LogNormal") {
        return Ok(
            DistributionSpec::LogNormal {
                mean_bits: bits_or_else(row.mean_bits, 0),
                std_dev_bits: bits_or_else(row.std_dev_bits, 0),
            },
        );
    }
    if same_text(k, "StudentT") {
        return Ok(
            DistributionSpec::StudentT {
                mean_bits: bits_or_else(row.mean_bits, 0),
                scale_bits: bits_or_else(row.scale_bits, 0),
                df_bits: bits_or_else(row.df_bits, FIVE_BITS),
            },
        );
    }
    if same_text(k, "RegimeSwitching") {
        let bull_id = match row.bull_id {
            Some(x) => x,
            None => 0,
        };
        let bull = match read_distribution(rows, bull_id, depth + 1) {
            Ok(d) => d,
            Err(e) => return Err(e),
        };
        let bear_id = match row.bear_id {
            Some(x) => x,
            None => 0,
        };
        let bear = match read_distribution(rows, bear_id, depth + 1) {
            Ok(d) => d,
            Err(e) => return Err(e),
        };
        return Ok(
            DistributionSpec::RegimeSwitching {
                bull: Box::new(bull),
                bear: Box::new(bear),
                bull_to_bear_bits: bits_or_else(row.bull_to_bear_bits, 0),
                bear_to_bull_bits: bits_or_else(row.bear_to_bull_bits, 0),
            },
        );
    }
    if same_text(k, "Bootstrap") {
        let preset = match &row.history_preset {
            Some(p) => owned(p.as_str()),
            None => owned("sp500"),
        };
        return Ok(DistributionSpec::Bootstrap { preset, block_size: row.block_size });
    }
    Ok(DistributionSpec::NoDistribution)
}

pub open spec fn numbered(rows: Seq<DistributionRowView>, b0: int) -> bool {
    forall|i: int| 0 <= i < rows.len() ==> #[trigger] rows[i].id == b0 + i
}

proof fn lemma_layout_ids(m: DistributionModel, depth: nat, base: int)
    requires
        base >= 0,
        base + distribution_count(m) <= i64::MAX,
    ensures
        distribution_layout(m, depth, base) matches Ok(rows) ==> (depth <= MAX_DISTRIBUTION_DEPTH
            && numbered(rows, base)),
    decreases m,
{
    lemma_distribution_len(m, depth, base);
    match m {
        DistributionModel::RegimeSwitching(l, r, _, _) => {
            lemma_layout_ids(*l, depth + 1, base);
            lemma_distribution_len(*l, depth + 1, base);
            lemma_layout_ids(*r, depth + 1, base + distribution_count(*l));
            lemma_distribution_len(*r, depth + 1, base + distribution_count(*l));
        },
        _ => {},
    }
}

proof fn lemma_index_numbered(all: Seq<DistributionRowView>, b0: int, id: i64)
    requires
        numbered(all, b0),
        b0 <= id < b0 + all.len(),
    ensures
        distribution_index(all, id) == id - b0,
{
    lemma_distribution_index(all, id);
    let k = distribution_index(all, id);
    assert(all[id - b0].id == id);
    if k >= 0 {
        assert(all[k].id == id);
    }
}

/// A node's row reads back as the node, given its two distributions do.
#[verifier::rlimit(30)]
proof fn lemma_read_node(all: Seq<DistributionRowView>, b0: int, m: DistributionModel, depth: nat, base: int)
    requires
        numbered(all, b0),
        b0 >= 0,
        b0 <= base,
        base + distribution_count(m) <= b0 + all.len(),
        base + distribution_count(m) <= i64::MAX,
        depth <= MAX_DISTRIBUTION_DEPTH,
        distribution_layout(m, depth, base) is Ok,
        all[base - b0 + distribution_count(m) - 1] == distribution_layout(m, depth, base)->Ok_0[distribution_count(m) - 1],
        m matches DistributionModel::RegimeSwitching(l, r, _, _) ==> read_distribution_model(
            all,
            (base + distribution_count(*l) - 1) as i64,
            depth + 1,
        ) == Ok::<DistributionModel, DistributionReadFault>(*l) && read_distribution_model(
            all,
            (base + distribution_count(*l) + distribution_count(*r) - 1) as i64,
            depth + 1,
        ) == Ok::<DistributionModel, DistributionReadFault>(*r),
    ensures
        read_distribution_model(all, (base + distribution_count(m) - 1) as i64, depth) == Ok::<
            DistributionModel,
            DistributionReadFault,
        >(m),
{
    lemma_distribution_names();
    lemma_distribution_len(m, depth, base);
    let n = distribution_count(m) as int;
    assert(n >= 1);
    lemma_index_numbered(all, b0, (base + n - 1) as i64);
    match m {
        DistributionModel::RegimeSwitching(l, r, _, _) => {
            lemma_distribution_len(*l, depth + 1, base);
            lemma_distribution_len(*r, depth + 1, base + distribution_count(*l));
        },
        _ => {},
    }
}

#[verifier::rlimit(30)]
proof fn lemma_read_within(all: Seq<DistributionRowView>, b0: int, m: DistributionModel, depth: nat, base: int)
    requires
        numbered(all, b0),
        b0 >= 0,
        b0 <= base,
        base + distribution_count(m) <= b0 + all.len(),
        base + distribution_count(m) <= i64::MAX,
        distribution_layout(m, depth, base) is Ok,
        all.subrange(base - b0, base - b0 + distribution_count(m)) == distribution_layout(m, depth, base)->Ok_0,
    ensures
        read_distribution_model(all, (base + distribution_count(m) - 1) as i64, depth) == Ok::<
            DistributionModel,
            DistributionReadFault,
        >(m),
    decreases m,
{
    let rows = distribution_layout(m, depth, base)->Ok_0;
    lemma_distribution_len(m, depth, base);
    lemma_layout_ids(m, depth, base);
    let n = distribution_count(m) as int;
    let lo = base - b0;
    assert(all.subrange(lo, lo + n)[n - 1] == all[lo + n - 1]);
    match m {
        DistributionModel::RegimeSwitching(l, r, _, _) => {
            let nl = distribution_count(*l) as int;
            let nr = distribution_count(*r) as int;
            lemma_distribution_len(*l, depth + 1, base);
            lemma_distribution_len(*r, depth + 1, base + nl);
            let lrows = distribution_layout(*l, depth + 1, base)->Ok_0;
            let rrows = distribution_layout(*r, depth + 1, base + nl)->Ok_0;
            assert(rows == lrows + rrows + seq![rows[nl + nr]]);
            assert(all.subrange(lo, lo + nl) == lrows) by {
                assert forall|k: int| 0 <= k < nl implies all.subrange(lo, lo + nl)[k] == lrows[k] by {
                    assert(rows[k] == lrows[k]);
                    assert(all.subrange(lo, lo + n)[k] == rows[k]);
                }
            }
            assert(all.subrange(lo + nl, lo + nl + nr) == rrows) by {
                assert forall|k: int| 0 <= k < nr implies all.subrange(lo + nl, lo + nl + nr)[k] == rrows[k] by {
                    assert(rows[nl + k] == rrows[k]);
                    assert(all.subrange(lo, lo + n)[nl + k] == rows[nl + k]);
                }
            }
            lemma_read_within(all, b0, *l, depth + 1, base);
            lemma_read_within(all, b0, *r, depth + 1, base + nl);
        },
        _ => {},
    }
    lemma_read_node(all, b0, m, depth, base);
}

/// What is written is read back: a distribution laid out as rows numbered
/// from `base` reads back from those rows, at its own row (the last), as
/// the same distribution.
pub proof fn distribution_round_trip(m: DistributionModel, depth: nat, base: int)
    requires
        base >= 0,
        base + distribution_count(m) <= i64::MAX,
        distribution_layout(m, depth, base) is Ok,
    ensures
        read_distribution_model(
            distribution_layout(m, depth, base)->Ok_0,
            (base + distribution_count(m) - 1) as i64,
            depth,
        ) == Ok::<DistributionModel, DistributionReadFault>(m),
{
    let rows = distribution_layout(m, depth, base)->Ok_0;
    lemma_distribution_len(m, depth, base);
    lemma_layout_ids(m, depth, base);
    assert(rows.subrange(0, distribution_count(m) as int) == rows);
    lemma_read_within(rows, base, m, depth, base);
}

/// Inflation profiles take no Student-t and no regime model.
pub fn check_inflation_kind(spec: &DistributionSpec) -> (r: Result<(), ApiError>)
    ensures
        r is Ok <==> !(spec@ is StudentT || spec@ is RegimeSwitching),
        r is Err ==> (r matches Err(ApiError::BadRequest(m)) && m@
            == "inflation profiles support None, Fixed, Normal, LogNormal or Bootstrap"@),
{
    match spec {
        DistributionSpec::StudentT { .. } | DistributionSpec::RegimeSwitching { .. } => Err(
            ApiError::bad_request("inflation profiles support None, Fixed, Normal, LogNormal or Bootstrap"),
        ),
        _ => Ok(()),
    }
}

/// A regime model's own row, the last of the rows written for it, is of the
/// regime kind and carries the chance of moving from the bull market to the
/// bear one in its `bull_to_bear` column and the chance of moving back in
/// its `bear_to_bull` column.
pub proof fn regime_row_keeps_its_chances(d: DistributionSpec, depth: nat, base: int, v: Seq<DistributionRow>)
    requires
        d is RegimeSwitching,
        distribution_layout(d@, depth, base) == Ok::<Seq<DistributionRowView>, DistributionFault>(
            distribution_row_views(v),
        ),
    ensures
        v.len() >= 1,
        v.last().kind@ == "RegimeSwitching"@,
        v.last().bull_to_bear_bits == Some(d->bull_to_bear_bits),
        v.last().bear_to_bull_bits == Some(d->bear_to_bull_bits),
{
    let rows = distribution_row_views(v);
    assert(rows.len() == v.len());
    assert(rows.len() >= 1);
    assert(rows[rows.len() - 1] == distribution_row_view(v[v.len() - 1]));
}

/// A regime model read back takes its chance of moving from the bull market
/// to the bear one from its row's `bull_to_bear` column, and its chance of
/// moving back from the `bear_to_bull` column (zero where one is empty).
pub proof fn regime_read_keeps_its_chances(v: Seq<DistributionRow>, id: i64, depth: nat, d: DistributionSpec)
    requires
        read_distribution_model(distribution_row_views(v), id, depth) == Ok::<
            DistributionModel,
            DistributionReadFault,
        >(d@),
        d is RegimeSwitching,
    ensures
        exists|k: int|
            0 <= k < v.len() && #[trigger] v[k].id == id && v[k].kind@ == "RegimeSwitching"@
                && d->bull_to_bear_bits == bits_or(v[k].bull_to_bear_bits, 0) && d->bear_to_bull_bits
                == bits_or(v[k].bear_to_bull_bits, 0),
{
    let rows = distribution_row_views(v);
    lemma_distribution_index(rows, id);
    let k = distribution_index(rows, id);
    assert(rows[k] == distribution_row_view(v[k]));
    assert(v[k].id == id);
}

} // verus!
