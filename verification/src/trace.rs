//! Traces of model runs: one line of text per tensor, and all values as bytes.

use crate::bytes::{half_bytes, halves_seq};
use crate::text::{decimal, decimal_of, hex_pattern, hex_pattern_of};
use vstd::prelude::*;
use vstd::string::StringExecFns;

verus! {

/// A tensor of a traced run, its values as half-precision bit patterns.
pub struct TraceTensor {
    pub op: String,
    pub name: String,
    pub dims: Vec<usize>,
    pub values: Vec<u16>,
}

/// Numbers with a separator between them.
pub open spec fn joined_numbers(dims: Seq<usize>, separator: Seq<char>) -> Seq<char>
    decreases dims.len(),
{
    if dims.len() == 0 {
        Seq::empty()
    } else if dims.len() == 1 {
        decimal_of(dims[0] as nat)
    } else {
        joined_numbers(dims.drop_last(), separator) + separator + decimal_of(dims.last() as nat)
    }
}

/// Writes numbers with a separator between them.
pub fn join_numbers(dims: &[usize], separator: &str) -> (r: String)
    ensures
        r@ == joined_numbers(dims@, separator@),
{
    let mut r: String = "".to_owned();
    proof {
        reveal_strlit("");
        assert(r@ =~= joined_numbers(dims@.take(0), separator@));
    }
    let mut i: usize = 0;
    while i < dims.len()
        invariant
            i <= dims@.len(),
            r@ == joined_numbers(dims@.take(i as int), separator@),
        decreases dims@.len() - i,
    {
        let ghost next = dims@.take(i + 1);
        assert(next.drop_last() =~= dims@.take(i as int));
        if i > 0 {
            r.append(separator);
        }
        r.append(decimal(dims[i]).as_str());
        assert(r@ =~= joined_numbers(next, separator@));
        i = i + 1;
    }
    assert(dims@.take(i as int) =~= dims@);
    r
}

/// How many values the first `count` tensors hold together.
pub open spec fn values_before(trace: Seq<TraceTensor>, count: int) -> int
    decreases count,
{
    if count <= 0 {
        0
    } else {
        values_before(trace, count - 1) + trace[count - 1].values@.len()
    }
}

/// More tensors hold no fewer values.
pub proof fn lemma_values_grow(trace: Seq<TraceTensor>, i: int, j: int)
    requires
        0 <= i <= j <= trace.len(),
    ensures
        0 <= values_before(trace, i) <= values_before(trace, j),
    decreases j,
{
    if i < j {
        lemma_values_grow(trace, i, j - 1);
    } else if i > 0 {
        lemma_values_grow(trace, i - 1, j - 1);
    }
}

/// The line of one tensor: operation, name, shape, where its values start, and
/// how many there are. A numbered line starts with the tensor's index, and then
/// the dimensions are joined by `x`; otherwise they stand in columns of their own.
pub open spec fn trace_line(t: TraceTensor, numbered: Option<int>, offset: int) -> Seq<char> {
    let head = match numbered {
        Some(i) => decimal_of(i as nat) + "\t"@,
        None => Seq::empty(),
    };
    let shape = joined_numbers(
        t.dims@,
        if numbered is Some {
            "x"@
        } else {
            "\t"@
        },
    );
    head + t.op@ + "\t"@ + t.name@ + "\t"@ + shape + "\t"@ + decimal_of(offset as nat) + "\t"@
        + decimal_of(t.values@.len()) + "\n"@
}

/// The lines of the first `count` tensors.
pub open spec fn trace_lines(trace: Seq<TraceTensor>, numbered: bool, count: int) -> Seq<char>
    decreases count,
{
    if count <= 0 {
        Seq::empty()
    } else {
        trace_lines(trace, numbered, count - 1) + trace_line(
            trace[count - 1],
            if numbered {
                Some(count - 1)
            } else {
                None
            },
            values_before(trace, count - 1),
        )
    }
}

/// The values of the first `count` tensors.
pub open spec fn trace_values(trace: Seq<TraceTensor>, count: int) -> Seq<u16>
    decreases count,
{
    if count <= 0 {
        Seq::empty()
    } else {
        trace_values(trace, count - 1) + trace[count - 1].values@
    }
}

fn write_line(t: &TraceTensor, numbered: Option<usize>, offset: usize) -> (r: String)
    ensures
        r@ == trace_line(
            *t,
            match numbered {
                Some(i) => Some(i as int),
                None => None,
            },
            offset as int,
        ),
{
    let mut r: String = "".to_owned();
    proof {
        reveal_strlit("");
    }
    let shape: String = match numbered {
        Some(i) => {
            r.append(decimal(i).as_str());
            r.append("\t");
            join_numbers(t.dims.as_slice(), "x")
        },
        None => join_numbers(t.dims.as_slice(), "\t"),
    };
    r.append(t.op.as_str());
    r.append("\t");
    r.append(t.name.as_str());
    r.append("\t");
    r.append(shape.as_str());
    r.append("\t");
    r.append(decimal(offset).as_str());
    r.append("\t");
    r.append(decimal(t.values.len()).as_str());
    r.append("\n");
    assert(r@ =~= trace_line(
        *t,
        match numbered {
            Some(i) => Some(i as int),
            None => None,
        },
        offset as int,
    ));
    r
}

/// The text and the bytes of a trace.
pub struct SavedTrace {
    pub meta: String,
    pub raw: Vec<u8>,
}

/// Writes a trace. A numbered trace starts with a line of headings.
pub fn save_trace(trace: &[TraceTensor], numbered: bool) -> (r: SavedTrace)
    requires
        values_before(trace@, trace@.len() as int) <= usize::MAX,
    ensures
        r.meta@ == (if numbered {
            "index\top\tname\tdims\toffset\tcount\n"@
        } else {
            Seq::empty()
        }) + trace_lines(trace@, numbered, trace@.len() as int),
        r.raw@ == halves_seq(trace_values(trace@, trace@.len() as int)),
{
    let mut meta: String = if numbered {
        "index\top\tname\tdims\toffset\tcount\n".to_owned()
    } else {
        "".to_owned()
    };
    proof {
        reveal_strlit("");
    }
    let ghost head = meta@;
    let mut values: Vec<u16> = Vec::new();
    let mut i: usize = 0;
    assert(meta@ =~= head + trace_lines(trace@, numbered, 0));
    assert(values@ =~= trace_values(trace@, 0));
    while i < trace.len()
        invariant
            i <= trace@.len(),
            values_before(trace@, trace@.len() as int) <= usize::MAX,
            values@.len() == values_before(trace@, i as int),
            values@ == trace_values(trace@, i as int),
            meta@ == head + trace_lines(trace@, numbered, i as int),
        decreases trace@.len() - i,
    {
        proof {
            lemma_values_grow(trace@, i + 1, trace@.len() as int);
        }
        let index: Option<usize> = if numbered {
            Some(i)
        } else {
            None
        };
        let line: String = write_line(&trace[i], index, values.len());
        meta.append(line.as_str());
        assert(meta@ =~= head + trace_lines(trace@, numbered, i + 1));
        let ghost before = values@;
        let mut j: usize = 0;
        while j < trace[i].values.len()
            invariant
                i < trace@.len(),
                j <= trace@[i as int].values@.len(),
                values@ == before + trace@[i as int].values@.take(j as int),
            decreases trace@[i as int].values@.len() - j,
        {
            values.push(trace[i].values[j]);
            j = j + 1;
            assert(values@ =~= before + trace@[i as int].values@.take(j as int));
        }
        assert(trace@[i as int].values@.take(j as int) =~= trace@[i as int].values@);
        i = i + 1;
    }
    assert(meta@ =~= head + trace_lines(trace@, numbered, trace@.len() as int));
    let raw: Vec<u8> = half_bytes(values.as_slice());
    SavedTrace { meta, raw }
}

/// Every tensor's values are found in the bytes where its line says they start.
pub proof fn law_trace_values_are_at_their_offset(trace: Seq<TraceTensor>, count: int, i: int, j: int)
    requires
        0 <= i < count <= trace.len(),
        0 <= j < trace[i].values@.len(),
    ensures
        trace_values(trace, count).len() == values_before(trace, count),
        values_before(trace, i) + j < trace_values(trace, count).len(),
        trace_values(trace, count)[values_before(trace, i) + j] == trace[i].values@[j],
    decreases count,
{
    lemma_value_count(trace, count);
    lemma_value_count(trace, count - 1);
    lemma_values_grow(trace, i + 1, count);
    lemma_values_grow(trace, i, count);
    if i < count - 1 {
        law_trace_values_are_at_their_offset(trace, count - 1, i, j);
    }
}

proof fn lemma_value_count(trace: Seq<TraceTensor>, count: int)
    requires
        count <= trace.len(),
    ensures
        trace_values(trace, count).len() == values_before(trace, count),
    decreases count,
{
    if count > 0 {
        lemma_value_count(trace, count - 1);
    }
}

/// Bit patterns in hexadecimal, separated by commas.
pub open spec fn joined_patterns(values: Seq<u16>) -> Seq<char>
    decreases values.len(),
{
    if values.len() == 0 {
        Seq::empty()
    } else if values.len() == 1 {
        hex_pattern_of(values[0])
    } else {
        joined_patterns(values.drop_last()) + ","@ + hex_pattern_of(values.last())
    }
}

/// Writes bit patterns in hexadecimal, separated by commas.
pub fn join_patterns(values: &[u16]) -> (r: String)
    ensures
        r@ == joined_patterns(values@),
{
    let mut r: String = "".to_owned();
    proof {
        reveal_strlit("");
        assert(r@ =~= joined_patterns(values@.take(0)));
    }
    let mut i: usize = 0;
    while i < values.len()
        invariant
            i <= values@.len(),
            r@ == joined_patterns(values@.take(i as int)),
        decreases values@.len() - i,
    {
        let ghost next = values@.take(i + 1);
        assert(next.drop_last() =~= values@.take(i as int));
        if i > 0 {
            r.append(",");
        }
        r.append(hex_pattern(values[i]).as_str());
        assert(r@ =~= joined_patterns(next));
        i = i + 1;
    }
    assert(values@.take(i as int) =~= values@);
    r
}

/// Numbers are joined in order, with the separator between any two of them and
/// nowhere else.
pub proof fn law_joined_numbers_keep_their_order(dims: Seq<usize>, d: usize, separator: Seq<char>)
    ensures
        joined_numbers(Seq::<usize>::empty(), separator).len() == 0,
        joined_numbers(seq![d], separator) == decimal_of(d as nat),
        dims.len() > 0 ==> joined_numbers(dims.push(d), separator) == joined_numbers(dims, separator)
            + separator + decimal_of(d as nat),
{
    assert(dims.push(d).drop_last() =~= dims);
}

/// Each value starts where the values of the tensors before it end, and each line of
/// the trace is about its own tensor and says so.
pub proof fn law_trace_lines_follow_each_other(trace: Seq<TraceTensor>, numbered: bool, i: int)
    requires
        0 <= i < trace.len(),
    ensures
        values_before(trace, 0) == 0,
        values_before(trace, i + 1) == values_before(trace, i) + trace[i].values@.len(),
        trace_lines(trace, numbered, 0).len() == 0,
        trace_lines(trace, numbered, i + 1) == trace_lines(trace, numbered, i) + trace_line(
            trace[i],
            if numbered {
                Some(i)
            } else {
                None
            },
            values_before(trace, i),
        ),
{
}

/// A line tells operation, name, shape, offset and count between tabs and ends with
/// the line; one with a number starts with that number and joins the shape by `x`.
pub proof fn law_trace_lines_are_tabbed(t: TraceTensor, i: nat, offset: nat)
    ensures
        trace_line(t, None, offset as int) == t.op@ + seq!['\t'] + t.name@ + seq!['\t']
            + joined_numbers(t.dims@, seq!['\t']) + seq!['\t'] + decimal_of(offset) + seq!['\t']
            + decimal_of(t.values@.len()) + seq!['\n'],
        trace_line(t, Some(i as int), offset as int) == decimal_of(i) + seq!['\t'] + t.op@ + seq![
            '\t',
        ] + t.name@ + seq!['\t'] + joined_numbers(t.dims@, seq!['x']) + seq!['\t'] + decimal_of(
            offset,
        ) + seq!['\t'] + decimal_of(t.values@.len()) + seq!['\n'],
{
    reveal_strlit("\t");
    reveal_strlit("\n");
    reveal_strlit("x");
    assert("\t"@ =~= seq!['\t']);
    assert("\n"@ =~= seq!['\n']);
    assert("x"@ =~= seq!['x']);
    assert(Seq::<char>::empty() + t.op@ =~= t.op@);
}

/// The values of the trace follow each other as its tensors do.
pub proof fn law_trace_values_follow_each_other(trace: Seq<TraceTensor>, i: int)
    requires
        0 <= i < trace.len(),
    ensures
        trace_values(trace, 0).len() == 0,
        trace_values(trace, i + 1) == trace_values(trace, i) + trace[i].values@,
{
}

/// Joined patterns are four digits each, with a comma between any two.
pub proof fn law_joined_patterns_are_five_apart(values: Seq<u16>, i: int)
    requires
        0 <= i < values.len(),
    ensures
        joined_patterns(values).len() == 5 * values.len() - 1,
        joined_patterns(values).subrange(5 * i, 5 * i + 4) == hex_pattern_of(values[i]),
        i + 1 < values.len() ==> joined_patterns(values)[5 * i + 4] == ',',
    decreases values.len(),
{
    reveal_strlit(",");
    let before = values.drop_last();
    let all = joined_patterns(values);
    if values.len() == 1 {
        assert(all.subrange(0, 4) =~= all);
    } else {
        law_joined_patterns_are_five_apart(
            before,
            if i < before.len() {
                i
            } else {
                0
            },
        );
        let head = joined_patterns(before);
        assert(head.len() == 5 * before.len() - 1);
        if i < before.len() {
            assert(all.subrange(5 * i, 5 * i + 4) =~= head.subrange(5 * i, 5 * i + 4));
            if i + 1 < before.len() {
                assert(all[5 * i + 4] == head[5 * i + 4]);
            } else {
                assert(all[5 * i + 4] == ","@[0]);
            }
        } else {
            assert(all.subrange(5 * i, 5 * i + 4) =~= hex_pattern_of(values[i]));
        }
    }
}

} // verus!
