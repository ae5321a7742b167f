//! What the diagnostic polls of the runtime mean: how their requests and answers are written, and
//! what is read out of them.
use vstd::prelude::*;

use crate::ams::AmsHeaderView;
use crate::diagnostics::{request_of, response_of, write_of, DiagEventView, MetricBodySchema, PendingRequest};
use crate::encoding::{lemma_dword_read, lemma_word_read};
use crate::wire::{le16, le32, u32_at};

verus! {

broadcast use crate::wire::group_wire;

/// The header of a response that reports no error.
pub open spec fn answers(h: AmsHeaderView) -> bool {
    h.state_flags & 1 != 0 && h.error_code == 0
}

/// A read of the realtime usage.
pub open spec fn usage_read(size: u32, target_port: u16) -> PendingRequest {
    PendingRequest { command_id: 2, index_group: 1, index_offset: 15, size, target_port }
}

/// A read of the counters of a task.
pub open spec fn task_read(size: u32, target_port: u16) -> PendingRequest {
    PendingRequest { command_id: 2, index_group: 0xF200, index_offset: 0, size, target_port }
}

/// A read of the exceed counter.
pub open spec fn exceed_read(size: u32, target_port: u16) -> PendingRequest {
    PendingRequest { command_id: 2, index_group: 0xF200, index_offset: 0x100, size, target_port }
}

/// An answer of six words to a read of the realtime usage gives the peak latency, the system
/// latency and the CPU usage: its second, its third and its fifth word.
pub proof fn law_usage_answers_read_back(
    h: AmsHeaderView,
    a: u32,
    peak: u32,
    latency: u32,
    b: u32,
    cpu: u32,
    c: u32,
    after: Seq<u8>,
    size: u32,
    port: u16,
)
    requires
        answers(h),
    ensures
        response_of(
            h,
            le32(0) + le32(24) + le32(a) + le32(peak) + le32(latency) + le32(b) + le32(cpu) + le32(c) + after,
            usage_read(size, port),
        ) == Some(DiagEventView::RtUsage { peak_latency_us: peak, system_latency_us: latency, cpu_percent: cpu }),
{
    let s = le32(0) + le32(24) + le32(a) + le32(peak) + le32(latency) + le32(b) + le32(cpu) + le32(c) + after;
    assert(s.subrange(0, 4) =~= le32(0));
    assert(s.subrange(4, 8) =~= le32(24));
    assert(s.subrange(12, 16) =~= le32(peak));
    assert(s.subrange(16, 20) =~= le32(latency));
    assert(s.subrange(24, 28) =~= le32(cpu));
    lemma_dword_read(s, 0, 0);
    lemma_dword_read(s, 4, 24);
    lemma_dword_read(s, 12, peak);
    lemma_dword_read(s, 16, latency);
    lemma_dword_read(s, 24, cpu);
}

/// An answer of sixteen bytes to a read of a task's counters gives its cycle counter and its type
/// in two bytes each, then its CPU time and its execution time; the task is that of the port asked.
pub proof fn law_task_answers_read_back(
    h: AmsHeaderView,
    cycles: u16,
    marker: u16,
    cpu: u32,
    exec_time: u32,
    d: u32,
    after: Seq<u8>,
    size: u32,
    port: u16,
)
    requires
        answers(h),
    ensures
        response_of(
            h,
            le32(0) + le32(16) + le16(cycles) + le16(marker) + le32(cpu) + le32(exec_time) + le32(d) + after,
            task_read(size, port),
        ) == Some(
            DiagEventView::TaskStats {
                task_port: port,
                type_marker: marker,
                cycle_counter: cycles,
                cpu_ticks_100ns: cpu,
                exec_ticks_100ns: exec_time,
            },
        ),
{
    let s = le32(0) + le32(16) + le16(cycles) + le16(marker) + le32(cpu) + le32(exec_time) + le32(d) + after;
    assert(s.subrange(0, 4) =~= le32(0));
    assert(s.subrange(4, 8) =~= le32(16));
    assert(s.subrange(8, 10) =~= le16(cycles));
    assert(s.subrange(10, 12) =~= le16(marker));
    assert(s.subrange(12, 16) =~= le32(cpu));
    assert(s.subrange(16, 20) =~= le32(exec_time));
    lemma_dword_read(s, 0, 0);
    lemma_dword_read(s, 4, 16);
    lemma_word_read(s, 8, cycles);
    lemma_word_read(s, 10, marker);
    lemma_dword_read(s, 12, cpu);
    lemma_dword_read(s, 16, exec_time);
}

/// An answer of four bytes to a read of the exceed counter gives the counter.
pub proof fn law_exceed_answers_read_back(h: AmsHeaderView, value: u32, after: Seq<u8>, size: u32, port: u16)
    requires
        answers(h),
    ensures
        response_of(h, le32(0) + le32(4) + le32(value) + after, exceed_read(size, port)) == Some(
            DiagEventView::ExceedCounter { value },
        ),
{
    let s = le32(0) + le32(4) + le32(value) + after;
    assert(s.subrange(0, 4) =~= le32(0));
    assert(s.subrange(4, 8) =~= le32(4));
    assert(s.subrange(8, 12) =~= le32(value));
    lemma_dword_read(s, 0, 0);
    lemma_dword_read(s, 4, 4);
    lemma_dword_read(s, 8, value);
}

/// The answer to a write of the exceed counter says that it was reset, whatever stands behind its
/// result.
pub proof fn law_reset_answers_read_back(h: AmsHeaderView, after: Seq<u8>, size: u32, port: u16)
    requires
        answers(h),
    ensures
        response_of(
            h,
            le32(0) + after,
            (PendingRequest { command_id: 3, index_group: 0xF200, index_offset: 0x100, size, target_port: port }),
        ) == Some(DiagEventView::ExceedReset),
{
    let s = le32(0) + after;
    assert(s.subrange(0, 4) =~= le32(0));
    lemma_dword_read(s, 0, 0);
}

/// An answer of another length than the polled value has, or one that is cut short, says nothing;
/// nor does one with a result other than zero, nor one to any other request.
pub proof fn law_other_answers_say_nothing(
    h: AmsHeaderView,
    result: u32,
    n: u32,
    data: Seq<u8>,
    req: PendingRequest,
    size: u32,
    port: u16,
)
    ensures
        n != 24 || data.len() < 24 || result != 0 ==> response_of(
            h,
            le32(result) + le32(n) + data,
            usage_read(size, port),
        ) is None,
        n != 16 || data.len() < 16 || result != 0 ==> response_of(
            h,
            le32(result) + le32(n) + data,
            task_read(size, port),
        ) is None,
        n != 4 || data.len() < 4 || result != 0 ==> response_of(
            h,
            le32(result) + le32(n) + data,
            exceed_read(size, port),
        ) is None,
        req != usage_read(req.size, req.target_port) && req != task_read(req.size, req.target_port) && req
            != exceed_read(req.size, req.target_port) && req != (PendingRequest {
            command_id: 3,
            index_group: 0xF200,
            index_offset: 0x100,
            size: req.size,
            target_port: req.target_port,
        }) ==> response_of(h, data, req) is None,
{
    let s = le32(result) + le32(n) + data;
    assert(s.subrange(0, 4) =~= le32(result));
    assert(s.subrange(4, 8) =~= le32(n));
    lemma_dword_read(s, 0, result);
    lemma_dword_read(s, 4, n);
}

/// A read of the usage, of a task's counters or of the exceed counter is followed, with its invoke
/// id, its place, its size and the port that it is for; a read of anything else is not.
pub proof fn law_polled_reads_are_followed(h: AmsHeaderView, ig: u32, io: u32, size: u32, after: Seq<u8>)
    requires
        h.state_flags == 4,
        h.command_id == 2,
    ensures
        ((ig == 1 && io == 15) || (ig == 0xF200 && io == 0) || (ig == 0xF200 && io == 0x100)) ==> request_of(
            h,
            le32(ig) + le32(io) + le32(size) + after,
        ) == Some(
            (
                h.invoke_id,
                PendingRequest {
                    command_id: 2,
                    index_group: ig,
                    index_offset: io,
                    size,
                    target_port: h.target_port,
                },
            ),
        ),
        !((ig == 1 && io == 15) || (ig == 0xF200 && io == 0) || (ig == 0xF200 && io == 0x100)) ==> request_of(
            h,
            le32(ig) + le32(io) + le32(size) + after,
        ) is None,
{
    lemma_place(ig, io, size, after);
}

/// A write of the exceed counter is followed, and is a reset by itself; a write of anything else
/// is neither.
pub proof fn law_resets_are_followed(h: AmsHeaderView, ig: u32, io: u32, size: u32, after: Seq<u8>)
    requires
        h.state_flags == 4,
        h.command_id == 3,
    ensures
        ({
            let s = le32(ig) + le32(io) + le32(size) + after;
            if ig == 0xF200 && io == 0x100 {
                &&& write_of(h, s) == Some(DiagEventView::ExceedReset)
                &&& request_of(h, s) == Some(
                    (
                        h.invoke_id,
                        PendingRequest {
                            command_id: 3,
                            index_group: ig,
                            index_offset: io,
                            size,
                            target_port: h.target_port,
                        },
                    ),
                )
            } else {
                write_of(h, s) is None && request_of(h, s) is None
            }
        }),
{
    lemma_place(ig, io, size, after);
}

/// Nothing but reads and writes is followed, and nothing that is cut short.
pub proof fn law_other_requests_are_not_followed(h: AmsHeaderView, p: Seq<u8>)
    requires
        h.state_flags != 4 || (h.command_id != 2 && h.command_id != 3) || p.len() < 12,
    ensures
        request_of(h, p) is None,
        write_of(h, p) is None,
{
}

proof fn lemma_place(ig: u32, io: u32, size: u32, after: Seq<u8>)
    ensures
        ({
            let s = le32(ig) + le32(io) + le32(size) + after;
            &&& s.len() >= 12
            &&& u32_at(s, 0) == ig
            &&& u32_at(s, 4) == io
            &&& u32_at(s, 8) == size
        }),
{
    let s = le32(ig) + le32(io) + le32(size) + after;
    assert(s.subrange(0, 4) =~= le32(ig));
    assert(s.subrange(4, 8) =~= le32(io));
    assert(s.subrange(8, 12) =~= le32(size));
    lemma_dword_read(s, 0, ig);
    lemma_dword_read(s, 4, io);
    lemma_dword_read(s, 8, size);
}

/// How the samples of a batch are written is one of six ways, numbered from one.
pub proof fn law_sample_formats(b: u8)
    ensures
        MetricBodySchema::of(b) is Some <==> 1 <= b <= 6,
        MetricBodySchema::of(b) == Some(MetricBodySchema::Bool) <==> b == 1,
        MetricBodySchema::of(b) == Some(MetricBodySchema::Numeric) <==> b == 2,
        MetricBodySchema::of(b) == Some(MetricBodySchema::Discrete) <==> b == 3,
        MetricBodySchema::of(b) == Some(MetricBodySchema::String) <==> b == 4,
        MetricBodySchema::of(b) == Some(MetricBodySchema::Wstring) <==> b == 5,
        MetricBodySchema::of(b) == Some(MetricBodySchema::NumericAggregated) <==> b == 6,
{
}

} // verus!
