//! What the scalars of a PLC mean: for each IEC type, the bytes of a value and the value that
//! they decode to.
use vstd::prelude::*;

use crate::ads_client::{law_read_request_reads_back, AdsReadRequest};
use crate::client::error::ClientErrorView;
use crate::client::{read_data, read_outcome, scalar, PlcValue, SymbolMetaView};
use crate::encoding::{le64, lemma_byte_read, lemma_dword_read, lemma_qword_read, lemma_word_read};
use crate::error::AdsErrorView;
use crate::models::{Lreal, MetricValue, Real};
use crate::text::{dec, is_white, trimmed_text, upper};
use crate::text_laws::{all_white, law_trimming_leaves_the_text, law_upper_case_spells, spells};
use crate::value_laws::{lemma_int_bytes, PlcInt};
use crate::widen::{lreal_units, real_units};
use crate::wire::{le32, u16_at, u32_at, u64_at};

verus! {

broadcast use crate::wire::group_wire;

/// `name` is the name of the type `t`, in whatever case and with white space around it or not.
pub open spec fn names_type(name: Seq<char>, t: Seq<char>) -> bool {
    exists|before: Seq<char>, word: Seq<char>, after: Seq<char>|
        #![trigger before + word + after]
        all_white(before) && all_white(after) && spells(word, t) && name == before + word + after
}

/// The names of the types of integers, and how many bytes each takes.
pub open spec fn names_integer(name: Seq<char>, v: PlcInt) -> bool {
    match v {
        PlcInt::Byte(_) => names_type(name, "BYTE"@),
        PlcInt::Word(_) => names_type(name, "WORD"@),
        PlcInt::Dword(_) => names_type(name, "DWORD"@),
        PlcInt::Sint(_) => names_type(name, "SINT"@),
        PlcInt::Int(_) => names_type(name, "INT"@),
        PlcInt::Dint(_) => names_type(name, "DINT"@),
        PlcInt::Usint(_) => names_type(name, "USINT"@),
        PlcInt::Uint(_) => names_type(name, "UINT"@),
        PlcInt::Udint(_) => names_type(name, "UDINT"@),
        PlcInt::Ulint(_) => names_type(name, "ULINT"@) || names_type(name, "LWORD"@),
        PlcInt::Lint(_) => names_type(name, "LINT"@),
    }
}

/// The names of all types of scalars.
pub open spec fn scalar_types() -> Seq<Seq<char>> {
    seq![
        "BOOL"@,
        "SINT"@,
        "USINT"@,
        "BYTE"@,
        "INT"@,
        "UINT"@,
        "WORD"@,
        "DINT"@,
        "UDINT"@,
        "DWORD"@,
        "LINT"@,
        "ULINT"@,
        "LWORD"@,
        "REAL"@,
        "LREAL"@,
    ]
}

/// The names of the types differ.
proof fn lemma_types_differ()
    ensures
        forall|i: int, j: int|
            0 <= i < j < scalar_types().len() ==> #[trigger] scalar_types()[i] != #[trigger] scalar_types()[j],
        forall|i: int, j: int|
            0 <= i < scalar_types().len() && 0 <= j < scalar_types()[i].len() ==> 'A' <= #[trigger] scalar_types()[i][j]
                <= 'Z',
        forall|i: int| 0 <= i < scalar_types().len() ==> #[trigger] scalar_types()[i].len() > 0,
{
    reveal_strlit("BOOL");
    reveal_strlit("SINT");
    reveal_strlit("USINT");
    reveal_strlit("BYTE");
    reveal_strlit("INT");
    reveal_strlit("UINT");
    reveal_strlit("WORD");
    reveal_strlit("DINT");
    reveal_strlit("UDINT");
    reveal_strlit("DWORD");
    reveal_strlit("LINT");
    reveal_strlit("ULINT");
    reveal_strlit("LWORD");
    reveal_strlit("REAL");
    reveal_strlit("LREAL");
    assert forall|i: int, j: int| 0 <= i < j < scalar_types().len() implies #[trigger] scalar_types()[i]
        != #[trigger] scalar_types()[j] by {
        let a = scalar_types()[i];
        let b = scalar_types()[j];
        assert(a.len() != b.len() || a[0] != b[0] || a[1] != b[1]);
    }
}

proof fn lemma_name(name: Seq<char>, i: int)
    requires
        0 <= i < scalar_types().len(),
        names_type(name, scalar_types()[i]),
    ensures
        upper(trimmed_text(name)) == scalar_types()[i],
{
    let t = scalar_types()[i];
    lemma_types_differ();
    assert(t.len() > 0);
    let (before, word, after) = choose|before: Seq<char>, word: Seq<char>, after: Seq<char>|
        #![trigger before + word + after]
        all_white(before) && all_white(after) && spells(word, t) && name == before + word + after;
    assert forall|j: int| 0 <= j < t.len() implies !is_white(#[trigger] word[j]) && !('a' <= t[j] <= 'z') by {
        assert('A' <= scalar_types()[i][j] <= 'Z');
        assert(crate::text_laws::same_letter(word[j], t[j]));
    }
    assert(!is_white(word[0]));
    assert(!is_white(word[word.len() - 1]));
    law_trimming_leaves_the_text(before, word, after);
    law_upper_case_spells(word, t);
}

/// The place of a name among the types.
proof fn lemma_names(name: Seq<char>)
    ensures
        forall|i: int|
            0 <= i < scalar_types().len() && names_type(name, #[trigger] scalar_types()[i]) ==> upper(
                trimmed_text(name),
            ) == scalar_types()[i],
        forall|i: int, j: int|
            0 <= i < j < scalar_types().len() ==> #[trigger] scalar_types()[i] != #[trigger] scalar_types()[j],
        scalar_types()[0] == "BOOL"@,
        scalar_types()[1] == "SINT"@,
        scalar_types()[2] == "USINT"@,
        scalar_types()[3] == "BYTE"@,
        scalar_types()[4] == "INT"@,
        scalar_types()[5] == "UINT"@,
        scalar_types()[6] == "WORD"@,
        scalar_types()[7] == "DINT"@,
        scalar_types()[8] == "UDINT"@,
        scalar_types()[9] == "DWORD"@,
        scalar_types()[10] == "LINT"@,
        scalar_types()[11] == "ULINT"@,
        scalar_types()[12] == "LWORD"@,
        scalar_types()[13] == "REAL"@,
        scalar_types()[14] == "LREAL"@,
{
    lemma_types_differ();
    assert forall|i: int|
        0 <= i < scalar_types().len() && names_type(name, #[trigger] scalar_types()[i]) implies upper(
        trimmed_text(name),
    ) == scalar_types()[i] by {
        lemma_name(name, i);
    }
}

/// The words that the bytes of an integer at the start of a buffer are.
proof fn lemma_int_at_start(v: PlcInt, after: Seq<u8>)
    ensures
        ({
            let s = v.bytes() + after;
            let n = v.number();
            &&& s.len() >= v.width()
            &&& v.width() == 1 ==> s[0] == n % 0x100
            &&& v.width() == 2 ==> u16_at(s, 0) == n % 0x1_0000
            &&& v.width() == 4 ==> u32_at(s, 0) == n % 0x1_0000_0000
            &&& v.width() == 8 ==> u64_at(s, 0) == n % 0x1_0000_0000_0000_0000
        }),
{
    let s = v.bytes() + after;
    let n = v.number();
    lemma_int_bytes(v);
    assert(s.subrange(0, v.bytes().len() as int) =~= v.bytes());
    if v.width() == 1 {
        lemma_byte_read(s, 0, (n % 0x100) as u8);
    } else if v.width() == 2 {
        lemma_word_read(s, 0, (n % 0x1_0000) as u16);
    } else if v.width() == 4 {
        lemma_dword_read(s, 0, (n % 0x1_0000_0000) as u32);
    } else {
        lemma_qword_read(s, 0, (n % 0x1_0000_0000_0000_0000) as u64);
    }
}

/// The bytes of an integer, low byte first and in two's complement, decode by the name of its
/// type to the integer, whatever stands behind them.
pub proof fn law_integers_decode(name: Seq<char>, v: PlcInt, after: Seq<u8>)
    requires
        names_integer(name, v),
    ensures
        v.unsigned() ==> (scalar(name, v.bytes() + after) matches Some(PlcValue::U64(n)) && n == v.number()),
        !v.unsigned() ==> (scalar(name, v.bytes() + after) matches Some(PlcValue::I64(n)) && n == v.number()),
{
    lemma_names(name);
    lemma_int_at_start(v, after);
}

/// A truth value decodes to whether its byte is not zero.
pub proof fn law_truth_values_decode(name: Seq<char>, b: u8, after: Seq<u8>)
    requires
        names_type(name, "BOOL"@),
    ensures
        scalar(name, seq![b] + after) == Some(PlcValue::Bool(b != 0)),
{
    lemma_names(name);
}

/// A number with a fraction decodes to the same number, in double width.
pub proof fn law_reals_decode(name: Seq<char>, x: u32, y: u64, after: Seq<u8>)
    ensures
        names_type(name, "LREAL"@) ==> scalar(name, le64(y) + after) == Some(PlcValue::F64(Lreal(y))),
        names_type(name, "REAL"@) ==> (scalar(name, le32(x) + after) matches Some(PlcValue::F64(wide)) && {
            &&& wide.finite() == Real(x).finite()
            &&& wide.0 / 0x8000_0000_0000_0000 == x / 0x8000_0000
            &&& wide.finite() ==> lreal_units(wide) == real_units(Real(x))
        }),
{
    lemma_names(name);
    let s = le64(y) + after;
    assert(s.subrange(0, 8) =~= le64(y));
    lemma_qword_read(s, 0, y);
    let r = le32(x) + after;
    assert(r.subrange(0, 4) =~= le32(x));
    lemma_dword_read(r, 0, x);
    crate::widen::law_widening_keeps_the_value(Real(x));
}

/// How many bytes a type takes.
pub open spec fn type_width(t: Seq<char>) -> nat {
    if t == "BOOL"@ || t == "SINT"@ || t == "USINT"@ || t == "BYTE"@ {
        1
    } else if t == "INT"@ || t == "UINT"@ || t == "WORD"@ {
        2
    } else if t == "LINT"@ || t == "ULINT"@ || t == "LWORD"@ || t == "LREAL"@ {
        8
    } else {
        4
    }
}

/// Nothing is decoded from fewer bytes than the type takes, nor by a name that is no scalar type.
pub proof fn law_nothing_else_decodes(name: Seq<char>, i: int, s: Seq<u8>)
    ensures
        0 <= i < scalar_types().len() && names_type(name, scalar_types()[i]) ==> (scalar(name, s) is None <==> s.len()
            < type_width(scalar_types()[i])),
        (forall|j: int| 0 <= j < scalar_types().len() ==> upper(trimmed_text(name)) != #[trigger] scalar_types()[j])
            ==> scalar(name, s) is None,
{
    lemma_names(name);
    if forall|j: int| 0 <= j < scalar_types().len() ==> upper(trimmed_text(name)) != #[trigger] scalar_types()[j] {
        let t = upper(trimmed_text(name));
        assert(t != scalar_types()[0]);
        assert(t != scalar_types()[1]);
        assert(t != scalar_types()[2]);
        assert(t != scalar_types()[3]);
        assert(t != scalar_types()[4]);
        assert(t != scalar_types()[5]);
        assert(t != scalar_types()[6]);
        assert(t != scalar_types()[7]);
        assert(t != scalar_types()[8]);
        assert(t != scalar_types()[9]);
        assert(t != scalar_types()[10]);
        assert(t != scalar_types()[11]);
        assert(t != scalar_types()[12]);
        assert(t != scalar_types()[13]);
        assert(t != scalar_types()[14]);
    }
}

/// As a metric, an integer is itself, a number with a fraction keeps its bits, and a truth value
/// is one or zero.
pub proof fn law_metric_numbers(n: i64, m: u64, x: Lreal)
    ensures
        PlcValue::I64(n).number() == MetricValue::Signed(n),
        PlcValue::U64(m).number() == MetricValue::Unsigned(m),
        PlcValue::F64(x).number() == MetricValue::Lreal(x),
        PlcValue::Bool(true).number() == MetricValue::Unsigned(1),
        PlcValue::Bool(false).number() == MetricValue::Unsigned(0),
{
}

/// The request for a symbol asks for its bytes: its place, and as many as it has.
pub proof fn law_symbols_are_asked_for_by_place(meta: SymbolMetaView)
    ensures
        AdsReadRequest::read(meta.request()) == Ok::<AdsReadRequest, AdsErrorView>(
            AdsReadRequest { index_group: meta.index_group, index_offset: meta.index_offset, read_length: meta.size },
        ),
{
    let q = AdsReadRequest { index_group: meta.index_group, index_offset: meta.index_offset, read_length: meta.size };
    law_read_request_reads_back(q, Seq::empty());
    assert(q.bytes() + Seq::<u8>::empty() =~= q.bytes());
}

/// A symbol of an integer type whose read is answered with the bytes of a number is read as that
/// number; a failed read fails with its own reason.
pub proof fn law_symbols_read_back(meta: SymbolMetaView, v: PlcInt, after: Seq<u8>, e: ClientErrorView)
    requires
        names_integer(meta.data_type_name, v),
    ensures
        ({
            let body = le32(0) + le32(v.width() as u32) + v.bytes() + after;
            read_outcome(meta, read_data(body)) matches Ok(got) && match got {
                PlcValue::U64(n) => v.unsigned() && n == v.number(),
                PlcValue::I64(n) => !v.unsigned() && n == v.number(),
                _ => false,
            }
        }),
        read_outcome(meta, Err(e)) == Err::<PlcValue, ClientErrorView>(e),
{
    lemma_int_bytes(v);
    law_integers_decode(meta.data_type_name, v, Seq::empty());
    assert(v.bytes() + Seq::<u8>::empty() =~= v.bytes());
    crate::client::law_read_response_gives_its_data(v.bytes(), after);
}

/// A symbol whose type is no scalar, or whose bytes are too few, is refused with the name of its
/// type and its size.
pub proof fn law_other_symbols_are_refused(meta: SymbolMetaView, s: Seq<u8>)
    requires
        scalar(meta.data_type_name, s) is None,
    ensures
        read_outcome(meta, Ok(s)) == Err::<PlcValue, ClientErrorView>(
            ClientErrorView::Decode(
                "unsupported scalar type '"@ + meta.data_type_name + "' (size "@ + dec(meta.size as nat) + ")"@,
            ),
        ),
{
}

} // verus!
