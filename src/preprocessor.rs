//! Rewrites of a parsed `Stub` before it is rendered: runs of adjacent reads
//! become one `ReadBatch` node that sees every command from its own position on.
use vstd::prelude::*;
use crate::ast::{
    cmds_view, read_lines_view, vars_view, Cmd, CmdV, ExternalNode, ReadBatch, Stub, StubV, VarV,
    VariableCommand,
};

verus! {

/// The variable lists of the run of reads that starts at `i`, and the
/// position after the run.
pub open spec fn read_run(cmds: Seq<CmdV>, i: int) -> (Seq<Seq<VarV>>, int)
    decreases cmds.len() - i,
{
    if 0 <= i < cmds.len() && cmds[i] is Read {
        let r = read_run(cmds, i + 1);
        (seq![cmds[i]->Read_0] + r.0, r.1)
    } else {
        (Seq::empty(), i)
    }
}

/// `cmds[i..]` with each maximal run of reads replaced by one batch whose
/// tail view is not set yet.
pub open spec fn batched_from(cmds: Seq<CmdV>, i: int) -> Seq<CmdV>
    decreases cmds.len() - i,
{
    if i < 0 || i >= cmds.len() {
        Seq::empty()
    } else if cmds[i] is Read {
        let (ls, j) = read_run(cmds, i);
        if j <= i || j > cmds.len() {
            Seq::empty()
        } else {
            seq![CmdV::ReadBatch { read_lines: ls, tail_start: None }] + batched_from(cmds, j)
        }
    } else {
        seq![cmds[i]] + batched_from(cmds, i + 1)
    }
}

/// Each batch sees the commands from its own position on.
pub open spec fn with_tails(cmds: Seq<CmdV>) -> Seq<CmdV> {
    Seq::new(
        cmds.len(),
        |k: int|
            match cmds[k] {
                CmdV::ReadBatch { read_lines, tail_start } => CmdV::ReadBatch {
                    read_lines,
                    tail_start: Some(k as nat),
                },
                c => c,
            },
    )
}

/// The command list after read batching.
pub open spec fn batched(cmds: Seq<CmdV>) -> Seq<CmdV> {
    with_tails(batched_from(cmds, 0))
}

proof fn lemma_read_run(cmds: Seq<CmdV>, i: int)
    requires
        0 <= i <= cmds.len(),
    ensures
        i <= read_run(cmds, i).1 <= cmds.len(),
        read_run(cmds, i).0.len() == read_run(cmds, i).1 - i,
        i < cmds.len() && cmds[i] is Read ==> i < read_run(cmds, i).1,
    decreases cmds.len() - i,
{
    if i < cmds.len() && cmds[i] is Read {
        lemma_read_run(cmds, i + 1);
    }
}

impl ReadBatch {
    pub fn new(read_lines: Vec<Vec<VariableCommand>>) -> (r: ReadBatch)
        ensures
            r.read_lines == read_lines,
            r.tail_start is None,
    {
        ReadBatch { read_lines, tail_start: None }
    }
}

/// Capabilities of a node that a rewrite introduced.
pub trait Renderable {
    /// The node as a read batch, where it is one.
    fn as_read_batch(&self) -> Option<&ReadBatch>;
}

impl Renderable for ExternalNode {
    fn as_read_batch(&self) -> (r: Option<&ReadBatch>)
        ensures
            r == (match self {
                ExternalNode::ReadBatch(b) => Some(b),
            }),
    {
        match self {
            ExternalNode::ReadBatch(b) => Some(b),
        }
    }
}

/// Merges each run of adjacent reads into one batch.
fn batch_reads(cmds: Vec<Cmd>) -> (r: Vec<Cmd>)
    ensures
        cmds_view(r@) == batched_from(cmds_view(cmds@), 0),
{
    let ghost orig = cmds_view(cmds@);
    let ghost n = cmds@.len() as int;
    let mut src = cmds;
    let mut out: Vec<Cmd> = Vec::new();
    assert(cmds_view(out@) =~= Seq::<CmdV>::empty());
    while src.len() > 0
        invariant
            0 <= n - src@.len() <= n,
            n == orig.len(),
            cmds_view(src@) == orig.subrange(n - src@.len(), n),
            cmds_view(out@) + batched_from(orig, n - src@.len()) == batched_from(orig, 0),
        decreases src@.len(),
    {
        let ghost i = n - src@.len();
        let ghost before = src@;
        let ghost prev = cmds_view(out@);
        assert(orig[i] == before[0]@) by {
            assert(cmds_view(before)[0] == orig.subrange(i, n)[0]);
        }
        let c = src.remove(0);
        assert(cmds_view(src@) =~= orig.subrange(i + 1, n)) by {
            assert forall|j: int| 0 <= j < src@.len() implies cmds_view(src@)[j] == orig.subrange(
                i + 1,
                n,
            )[j] by {
                assert(src@[j] == before[j + 1]);
                assert(cmds_view(before)[j + 1] == orig.subrange(i, n)[j + 1]);
            }
        }
        match c {
            Cmd::Read(vars) => {
                proof {
                    lemma_read_run(orig, i);
                    lemma_read_run(orig, i + 1);
                }
                let mut lines: Vec<Vec<VariableCommand>> = Vec::new();
                lines.push(vars);
                assert(read_lines_view(lines@) =~= seq![orig[i]->Read_0]);
                while src.len() > 0 && matches!(src[0], Cmd::Read(_))
                    invariant
                        0 <= n - src@.len() <= n,
                        n == orig.len(),
                        cmds_view(src@) == orig.subrange(n - src@.len(), n),
                        read_lines_view(lines@) + read_run(orig, n - src@.len()).0 == read_run(
                            orig,
                            i,
                        ).0,
                        read_run(orig, n - src@.len()).1 == read_run(orig, i).1,
                    decreases src@.len(),
                {
                    let ghost k = n - src@.len();
                    let ghost before2 = src@;
                    assert(orig[k] == before2[0]@) by {
                        assert(cmds_view(before2)[0] == orig.subrange(k, n)[0]);
                    }
                    let d = src.remove(0);
                    assert(cmds_view(src@) =~= orig.subrange(k + 1, n)) by {
                        assert forall|j: int| 0 <= j < src@.len() implies cmds_view(src@)[j]
                            == orig.subrange(k + 1, n)[j] by {
                            assert(src@[j] == before2[j + 1]);
                            assert(cmds_view(before2)[j + 1] == orig.subrange(k, n)[j + 1]);
                        }
                    }
                    if let Cmd::Read(more) = d {
                        let ghost lv = read_lines_view(lines@);
                        lines.push(more);
                        assert(read_lines_view(lines@) =~= lv.push(vars_view(more@)));
                        assert(lv + read_run(orig, k).0 =~= read_lines_view(lines@) + read_run(
                            orig,
                            k + 1,
                        ).0);
                    }
                }
                proof {
                    let k = n - src@.len();
                    if k < n {
                        assert(cmds_view(src@)[0] == orig.subrange(k, n)[0]);
                    }
                    assert(read_lines_view(lines@) + read_run(orig, k).0 =~= read_lines_view(
                        lines@,
                    ));
                }
                let b = Cmd::External(ExternalNode::ReadBatch(ReadBatch::new(lines)));
                out.push(b);
                assert(cmds_view(out@) =~= prev.push(b@));
            },
            other => {
                let ghost ov = other@;
                out.push(other);
                assert(cmds_view(out@) =~= prev.push(ov));
            },
        }
    }
    proof {
        assert(batched_from(orig, n) =~= Seq::<CmdV>::empty());
        assert(cmds_view(out@) + Seq::<CmdV>::empty() =~= cmds_view(out@));
    }
    out
}

/// Points every batch at its own position.
fn set_tails(cmds: Vec<Cmd>) -> (r: Vec<Cmd>)
    ensures
        cmds_view(r@) == with_tails(cmds_view(cmds@)),
{
    let ghost target = with_tails(cmds_view(cmds@));
    let ghost n = cmds@.len();
    let mut src = cmds;
    let mut out: Vec<Cmd> = Vec::new();
    while src.len() > 0
        invariant
            out@.len() + src@.len() == n,
            n == target.len(),
            cmds_view(out@) == target.subrange(0, out@.len() as int),
            forall|j: int|
                0 <= j < src@.len() ==> target[out@.len() + j] == match #[trigger] src@[j]@ {
                    CmdV::ReadBatch { read_lines, tail_start } => CmdV::ReadBatch {
                        read_lines,
                        tail_start: Some((out@.len() + j) as nat),
                    },
                    c => c,
                },
        decreases src@.len(),
    {
        let ghost before = src@;
        let ghost k = out@.len();
        assert(target[k as int + 0] == match src@[0]@ {
            CmdV::ReadBatch { read_lines, tail_start } => CmdV::ReadBatch {
                read_lines,
                tail_start: Some((k + 0) as nat),
            },
            c => c,
        });
        let c = src.remove(0);
        assert(src@.len() == before.len() - 1);
        assert(before[0] == c);
        let u = match c {
            Cmd::External(ExternalNode::ReadBatch(b)) => {
                let pos: usize = out.len();
                Cmd::External(ExternalNode::ReadBatch(ReadBatch { read_lines: b.read_lines, tail_start: Some(pos) }))
            },
            other => other,
        };
        assert(u@ == target[k as int]);
        let ghost prev = cmds_view(out@);
        out.push(u);
        assert(cmds_view(out@) =~= prev.push(u@));
        assert(cmds_view(out@) =~= target.subrange(0, out@.len() as int));
        assert forall|j: int| 0 <= j < src@.len() implies target[out@.len() + j] == match #[trigger] src@[j]@ {
            CmdV::ReadBatch { read_lines, tail_start } => CmdV::ReadBatch {
                read_lines,
                tail_start: Some((out@.len() + j) as nat),
            },
            c => c,
        } by {
            assert(src@[j] == before[j + 1]);
        }
    }
    assert(target.subrange(0, out@.len() as int) =~= target);
    out
}

/// Replaces each run of adjacent reads of the top-level command list by one
/// read batch, then points each batch at its own position, from which its
/// tail view reaches to the end of the list.
pub fn transform(stub: &mut Stub)
    ensures
        final(stub)@ == (StubV { commands: batched(old(stub)@.commands), ..old(stub)@ }),
{
    let mut cmds: Vec<Cmd> = Vec::new();
    std::mem::swap(&mut cmds, &mut stub.commands);
    let b = batch_reads(cmds);
    stub.commands = set_tails(b);
}

/// Three reads in a row followed by a command that is no read become one
/// batch holding the three variable lists in order, whose tail view starts at
/// the batch itself and so takes in the command after it.
pub proof fn three_reads_one_batch(a: Seq<VarV>, b: Seq<VarV>, c: Seq<VarV>, w: CmdV)
    requires
        !(w is Read),
    ensures
        batched(seq![CmdV::Read(a), CmdV::Read(b), CmdV::Read(c), w]) == seq![
            CmdV::ReadBatch { read_lines: seq![a, b, c], tail_start: Some(0) },
            match w {
                CmdV::ReadBatch { read_lines, tail_start } => CmdV::ReadBatch {
                    read_lines,
                    tail_start: Some(1),
                },
                other => other,
            },
        ],
{
    let cmds = seq![CmdV::Read(a), CmdV::Read(b), CmdV::Read(c), w];
    assert(read_run(cmds, 3) == (Seq::<Seq<VarV>>::empty(), 3int));
    assert(read_run(cmds, 2).0 =~= seq![c]);
    assert(read_run(cmds, 1).0 =~= seq![b, c]);
    assert(read_run(cmds, 0).0 =~= seq![a, b, c]);
    assert(read_run(cmds, 0).1 == 3);
    assert(batched_from(cmds, 4) == Seq::<CmdV>::empty());
    assert(batched_from(cmds, 3) =~= seq![w]);
    let first = CmdV::ReadBatch { read_lines: seq![a, b, c], tail_start: None };
    assert(batched_from(cmds, 0) =~= seq![first, w]);
    assert(batched(cmds) =~= seq![
        CmdV::ReadBatch { read_lines: seq![a, b, c], tail_start: Some(0) },
        match w {
            CmdV::ReadBatch { read_lines, tail_start } => CmdV::ReadBatch {
                read_lines,
                tail_start: Some(1),
            },
            other => other,
        },
    ]);
}

} // verus!
