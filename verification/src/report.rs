//! Reports on trees that were built from test vectors, and the comparison of a tree built on the
//! GPU with one built on the host.
use crate::chars::{split, writes};
use crate::goldilocks::{lemma_same_element, GoldilocksField};
use crate::job::GpuMerkleOutput;
use crate::padding::{ceil_log2, pad_leaves, PaddedLeaves};
use crate::text::{
    decimal, decimal_text, join, join_texts, lemma_decimal_writes, push_usize, texts,
};
use crate::vectors::{lacks, lemma_split_join};
use crate::words::{lemma_same_digest, HashOut};
use vstd::arithmetic::power2::*;
use vstd::prelude::*;
use vstd::string::*;

verus! {

/// Elements in a leaf that pads test vectors.
pub const TEST_PADDING_WIDTH: usize = 32;

/// Mismatches of digests that are told one by one.
pub const MAX_DIGEST_MISMATCHES: usize = 10;

/// There are no leaves to build a tree from.
#[derive(Clone, Copy, Debug, PartialEq, Eq, Structural)]
pub struct NoTestVectors;

impl NoTestVectors {
    /// What the error says.
    pub fn message(&self) -> (message: String)
        ensures
            message@ == "No test vectors found"@,
    {
        let mut out = String::new();
        out.append("No test vectors found");
        assert(out@ =~= "No test vectors found"@);
        out
    }
}

/// Pads test vectors to a full tree. There has to be at least one.
pub fn prepare_test_leaves(leaves: Vec<Vec<GoldilocksField>>) -> (result: Result<
    PaddedLeaves,
    NoTestVectors,
>)
    requires
        leaves@.len() <= usize::MAX / 2 + 1,
    ensures
        match result {
            Ok(padded) => {
                &&& leaves@.len() > 0
                &&& padded.num_leaves == leaves@.len()
                &&& padded.log2_leaves == ceil_log2(leaves@.len())
                &&& padded.padded_size == pow2(ceil_log2(leaves@.len()))
                &&& padded.leaves@.len() == padded.padded_size
                &&& padded.leaves@.take(leaves@.len() as int) == leaves@
                &&& forall|i: int|
                    leaves@.len() <= i < padded.padded_size ==> (#[trigger] padded.leaves@[i])@
                        == Seq::new(TEST_PADDING_WIDTH as nat, |k: int| GoldilocksField(0))
            },
            Err(_) => leaves@.len() == 0,
        },
{
    if leaves.len() == 0 {
        return Err(NoTestVectors);
    }
    Ok(pad_leaves(leaves, TEST_PADDING_WIDTH))
}

/// The elements of a digest in canonical form, with `, ` between two of them.
pub open spec fn root_text(digest: HashOut) -> Seq<char> {
    join(Seq::new(4, |i: int| decimal(digest@[i].residue() as nat)), ", "@)
}

/// The elements of a digest in canonical form, with `, ` between two of them.
pub fn root_hash(digest: &HashOut) -> (text: String)
    ensures
        text@ == root_text(*digest),
{
    let mut elements: Vec<String> = Vec::new();
    let ghost expected = Seq::new(4, |i: int| decimal(digest@[i].residue() as nat));
    let mut i: usize = 0;
    while i < 4
        invariant
            i <= 4,
            expected == Seq::new(4, |k: int| decimal(digest@[k].residue() as nat)),
            texts(elements@) == expected.take(i as int),
        decreases 4 - i,
    {
        let ghost before = texts(elements@);
        let element = decimal_text(digest.elements[i].to_canonical_u64());
        let ghost text = element@;
        elements.push(element);
        assert(texts(elements@) =~= before.push(text));
        assert(expected.take(i + 1) =~= expected.take(i as int).push(expected[i as int]));
        i = i + 1;
    }
    assert(expected.take(4) =~= expected);
    join_texts(&elements, ", ")
}

/// The raw values of the elements of a digest, as a list in brackets.
pub open spec fn digest_text(digest: HashOut) -> Seq<char> {
    "["@ + join(Seq::new(4, |i: int| decimal(digest@[i].0 as nat)), ", "@) + "]"@
}

/// Appends the raw values of the elements of a digest, as a list in brackets.
fn push_digest(out: &mut String, digest: &HashOut)
    ensures
        final(out)@ == old(out)@ + digest_text(*digest),
{
    let mut elements: Vec<String> = Vec::new();
    let ghost expected = Seq::new(4, |i: int| decimal(digest@[i].0 as nat));
    let mut i: usize = 0;
    while i < 4
        invariant
            i <= 4,
            expected == Seq::new(4, |k: int| decimal(digest@[k].0 as nat)),
            texts(elements@) == expected.take(i as int),
        decreases 4 - i,
    {
        let ghost before = texts(elements@);
        let element = decimal_text(digest.elements[i].0);
        let ghost text = element@;
        elements.push(element);
        assert(texts(elements@) =~= before.push(text));
        assert(expected.take(i + 1) =~= expected.take(i as int).push(expected[i as int]));
        i = i + 1;
    }
    assert(expected.take(4) =~= expected);
    let list = join_texts(&elements, ", ");
    out.append("[");
    out.append(list.as_str());
    out.append("]");
    assert(out@ =~= old(out)@ + digest_text(*digest));
}

/// The positions below `len` at which two runs of digests differ, in order.
pub open spec fn mismatches(cpu: Seq<HashOut>, gpu: Seq<HashOut>, len: nat) -> Seq<nat>
    decreases len,
{
    if len == 0 {
        Seq::empty()
    } else {
        let i = (len - 1) as nat;
        let before = mismatches(cpu, gpu, i);
        if cpu[i as int].residues() != gpu[i as int].residues() {
            before.push(i)
        } else {
            before
        }
    }
}

/// What is said of two digests that differ.
pub open spec fn mismatch_text(
    what: Seq<char>,
    i: nat,
    cpu: HashOut,
    gpu: HashOut,
) -> Seq<char> {
    what + "["@ + decimal(i) + "] mismatch:\n  CPU: "@ + digest_text(cpu) + "\n  GPU: "@
        + digest_text(gpu)
}

/// What is said of two runs of digests that are not of the same length.
pub open spec fn length_text(what: Seq<char>, cpu: nat, gpu: nat) -> Seq<char> {
    what + " length mismatch: CPU="@ + decimal(cpu) + ", GPU="@ + decimal(gpu)
}

/// What is said of the digests at the positions at which two runs differ.
pub open spec fn mismatch_texts(
    what: Seq<char>,
    positions: Seq<nat>,
    cpu: Seq<HashOut>,
    gpu: Seq<HashOut>,
) -> Seq<Seq<char>> {
    positions.map_values(|i: nat| mismatch_text(what, i, cpu[i as int], gpu[i as int]))
}

/// The differences between two caps: their lengths, or each digest that differs.
pub open spec fn cap_differences(cpu: Seq<HashOut>, gpu: Seq<HashOut>) -> Seq<Seq<char>> {
    if cpu.len() != gpu.len() {
        seq![length_text("Cap"@, cpu.len(), gpu.len())]
    } else {
        mismatch_texts("Cap"@, mismatches(cpu, gpu, cpu.len()), cpu, gpu)
    }
}

/// The differences between the digests of two trees: their number, or the first digests that
/// differ and, where there are more, how many.
pub open spec fn digest_differences(cpu: Seq<HashOut>, gpu: Seq<HashOut>) -> Seq<Seq<char>> {
    if cpu.len() != gpu.len() {
        seq![length_text("Digests"@, cpu.len(), gpu.len())]
    } else {
        let all = mismatches(cpu, gpu, cpu.len());
        if all.len() > MAX_DIGEST_MISMATCHES {
            mismatch_texts("Digest"@, all.take(MAX_DIGEST_MISMATCHES as int), cpu, gpu).push(
                "... and "@ + decimal((all.len() - MAX_DIGEST_MISMATCHES) as nat)
                    + " more digest mismatches (total: "@ + decimal(all.len()) + ")"@,
            )
        } else {
            mismatch_texts("Digest"@, all, cpu, gpu)
        }
    }
}

/// All differences between two trees, those of the caps first.
pub open spec fn differences(cpu: GpuMerkleOutput, gpu: GpuMerkleOutput) -> Seq<Seq<char>> {
    cap_differences(cpu.cap@, gpu.cap@) + digest_differences(cpu.digests@, gpu.digests@)
}

/// Two runs of digests are of the same length and agree at each position.
pub open spec fn same_digests(cpu: Seq<HashOut>, gpu: Seq<HashOut>) -> bool {
    &&& cpu.len() == gpu.len()
    &&& forall|i: int|
        0 <= i < cpu.len() ==> (#[trigger] cpu[i]).residues() == gpu[i].residues()
}

/// The positions of the mismatches are in range, in order, and just those at which the runs
/// differ.
pub proof fn lemma_mismatches(cpu: Seq<HashOut>, gpu: Seq<HashOut>, len: nat)
    ensures
        mismatches(cpu, gpu, len).len() <= len,
        forall|k: int|
            0 <= k < mismatches(cpu, gpu, len).len() ==> (#[trigger] mismatches(
                cpu,
                gpu,
                len,
            )[k]) < len,
        forall|j: int, k: int|
            0 <= j < k < mismatches(cpu, gpu, len).len() ==> (#[trigger] mismatches(
                cpu,
                gpu,
                len,
            )[j]) < #[trigger] mismatches(cpu, gpu, len)[k],
        forall|i: nat|
            i < len ==> (#[trigger] mismatches(cpu, gpu, len).contains(i)
                <==> cpu[i as int].residues() != gpu[i as int].residues()),
    decreases len,
{
    if len > 0 {
        let last = (len - 1) as nat;
        let before = mismatches(cpu, gpu, last);
        let all = mismatches(cpu, gpu, len);
        lemma_mismatches(cpu, gpu, last);
        assert forall|i: nat| i < len implies (#[trigger] all.contains(i)
            <==> cpu[i as int].residues() != gpu[i as int].residues()) by {
            if i == last {
                if cpu[last as int].residues() != gpu[last as int].residues() {
                    assert(all[all.len() - 1] == last);
                }
            } else {
                assert(before.contains(i) <==> cpu[i as int].residues()
                    != gpu[i as int].residues());
                if before.contains(i) {
                    let k = choose|k: int| 0 <= k < before.len() && before[k] == i;
                    assert(all[k] == i);
                }
                if all.contains(i) {
                    let k = choose|k: int| 0 <= k < all.len() && all[k] == i;
                    assert(before[k] == i);
                }
            }
        }
    }
}

/// No differences are found between two trees just where caps and digests agree.
pub proof fn lemma_no_differences(cpu: GpuMerkleOutput, gpu: GpuMerkleOutput)
    ensures
        differences(cpu, gpu).len() == 0 <==> same_digests(cpu.cap@, gpu.cap@) && same_digests(
            cpu.digests@,
            gpu.digests@,
        ),
{
    lemma_no_mismatches(cpu.cap@, gpu.cap@);
    lemma_no_mismatches(cpu.digests@, gpu.digests@);
}

/// Runs of one length have no mismatches just where they agree.
proof fn lemma_no_mismatches(cpu: Seq<HashOut>, gpu: Seq<HashOut>)
    ensures
        cpu.len() == gpu.len() ==> (mismatches(cpu, gpu, cpu.len()).len() == 0 <==> same_digests(
            cpu,
            gpu,
        )),
{
    let all = mismatches(cpu, gpu, cpu.len());
    lemma_mismatches(cpu, gpu, cpu.len());
    if cpu.len() == gpu.len() {
        if all.len() == 0 {
            assert forall|i: int| 0 <= i < cpu.len() implies (#[trigger] cpu[i]).residues()
                == gpu[i].residues() by {
                assert(!all.contains(i as nat));
            }
        } else if same_digests(cpu, gpu) {
            assert(all.contains(all[0]));
            assert(cpu[all[0] as int].residues() == gpu[all[0] as int].residues());
        }
    }
}

/// However many digests differ, only the first of them are told one by one.
pub proof fn lemma_few_digest_differences(cpu: Seq<HashOut>, gpu: Seq<HashOut>)
    ensures
        digest_differences(cpu, gpu).len() <= MAX_DIGEST_MISMATCHES + 1,
{
}

/// The count of differing digests is zero just where the digests of trees of one size agree.
pub proof fn lemma_mismatch_count(cpu: Seq<HashOut>, gpu: Seq<HashOut>)
    requires
        cpu.len() == gpu.len(),
    ensures
        digest_mismatch_count(cpu, gpu) == 0 <==> same_digests(cpu, gpu),
        digest_mismatch_count(cpu, gpu) <= cpu.len(),
{
    lemma_no_mismatches(cpu, gpu);
    lemma_mismatches(cpu, gpu, cpu.len());
}

/// Adds what is said of two digests that differ.
fn push_mismatch(out: &mut Vec<String>, what: &str, i: usize, cpu: &HashOut, gpu: &HashOut)
    ensures
        texts(final(out)@) == texts(old(out)@).push(mismatch_text(what@, i as nat, *cpu, *gpu)),
{
    let mut text = String::new();
    text.append(what);
    text.append("[");
    push_usize(&mut text, i);
    text.append("] mismatch:\n  CPU: ");
    push_digest(&mut text, cpu);
    text.append("\n  GPU: ");
    push_digest(&mut text, gpu);
    assert(text@ =~= mismatch_text(what@, i as nat, *cpu, *gpu));
    let ghost said = text@;
    out.push(text);
    assert(texts(out@) =~= texts(old(out)@).push(said));
}

/// Adds what is said of two runs of digests that are not of the same length.
fn push_length(out: &mut Vec<String>, what: &str, cpu: usize, gpu: usize)
    ensures
        texts(final(out)@) == texts(old(out)@).push(length_text(what@, cpu as nat, gpu as nat)),
{
    let mut text = String::new();
    text.append(what);
    text.append(" length mismatch: CPU=");
    push_usize(&mut text, cpu);
    text.append(", GPU=");
    push_usize(&mut text, gpu);
    assert(text@ =~= length_text(what@, cpu as nat, gpu as nat));
    let ghost said = text@;
    out.push(text);
    assert(texts(out@) =~= texts(old(out)@).push(said));
}

/// The lesser of two numbers.
pub open spec fn lesser(a: nat, b: nat) -> nat {
    if a < b {
        a
    } else {
        b
    }
}

/// Compares two runs of one length, adds what is said of the first `limit` mismatches, and counts
/// them all.
fn push_mismatches(
    out: &mut Vec<String>,
    what: &str,
    cpu: &Vec<HashOut>,
    gpu: &Vec<HashOut>,
    limit: usize,
) -> (count: usize)
    requires
        cpu@.len() == gpu@.len(),
    ensures
        ({
            let all = mismatches(cpu@, gpu@, cpu@.len());
            &&& count == all.len()
            &&& texts(final(out)@) == texts(old(out)@) + mismatch_texts(
                what@,
                all.take(lesser(limit as nat, all.len()) as int),
                cpu@,
                gpu@,
            )
        }),
{
    let ghost given = texts(out@);
    let mut count: usize = 0;
    let mut i: usize = 0;
    assert(texts(out@) =~= given + mismatch_texts(
        what@,
        mismatches(cpu@, gpu@, 0).take(lesser(limit as nat, 0) as int),
        cpu@,
        gpu@,
    ));
    while i < cpu.len()
        invariant
            i <= cpu@.len(),
            cpu@.len() == gpu@.len(),
            count <= i,
            count == mismatches(cpu@, gpu@, i as nat).len(),
            texts(out@) == given + mismatch_texts(
                what@,
                mismatches(cpu@, gpu@, i as nat).take(lesser(limit as nat, count as nat) as int),
                cpu@,
                gpu@,
            ),
        decreases cpu@.len() - i,
    {
        let ghost before = mismatches(cpu@, gpu@, i as nat);
        let ghost after = mismatches(cpu@, gpu@, (i + 1) as nat);
        let ghost said = texts(out@);
        if cpu[i] != gpu[i] {
            assert(after == before.push(i as nat));
            if count < limit {
                push_mismatch(out, what, i, &cpu[i], &gpu[i]);
                proof {
                    assert(before.take(count as int) =~= before);
                    assert(after.take(count + 1) =~= after);
                    assert(given + mismatch_texts(what@, after, cpu@, gpu@) =~= texts(out@));
                }
            } else {
                assert(after.take(limit as int) =~= before.take(limit as int));
            }
            count = count + 1;
        } else {
            assert(after == before);
        }
        i = i + 1;
    }
    count
}

/// How many digests of two trees differ; none are compared where the trees do not have the same
/// number of them.
pub open spec fn digest_mismatch_count(cpu: Seq<HashOut>, gpu: Seq<HashOut>) -> nat {
    if cpu.len() == gpu.len() {
        mismatches(cpu, gpu, cpu.len()).len()
    } else {
        0
    }
}

/// What the comparison of two trees found.
#[derive(Debug)]
pub struct TreeComparison {
    /// The differences, those of the caps first.
    pub differences: Vec<String>,
    /// How many digests differ, told one by one or not.
    pub digest_mismatches: usize,
}

/// Lists the differences between two trees and counts the digests that differ.
pub fn compare_trees(cpu: &GpuMerkleOutput, gpu: &GpuMerkleOutput) -> (comparison: TreeComparison)
    ensures
        texts(comparison.differences@) == differences(*cpu, *gpu),
        comparison.digest_mismatches == digest_mismatch_count(cpu.digests@, gpu.digests@),
{
    let mut digest_mismatches: usize = 0;
    let mut found: Vec<String> = Vec::new();
    assert(texts(found@) =~= Seq::empty());
    if cpu.cap.len() != gpu.cap.len() {
        push_length(&mut found, "Cap", cpu.cap.len(), gpu.cap.len());
    } else {
        let _count: usize = push_mismatches(&mut found, "Cap", &cpu.cap, &gpu.cap, usize::MAX);
        proof {
            let all = mismatches(cpu.cap@, gpu.cap@, cpu.cap@.len());
            assert(all.take(lesser(usize::MAX as nat, all.len()) as int) =~= all);
        }
    }
    assert(texts(found@) =~= cap_differences(cpu.cap@, gpu.cap@));
    let ghost caps = texts(found@);
    if cpu.digests.len() != gpu.digests.len() {
        push_length(&mut found, "Digests", cpu.digests.len(), gpu.digests.len());
    } else {
        let count: usize = push_mismatches(
            &mut found,
            "Digest",
            &cpu.digests,
            &gpu.digests,
            MAX_DIGEST_MISMATCHES,
        );
        digest_mismatches = count;
        let ghost all = mismatches(cpu.digests@, gpu.digests@, cpu.digests@.len());
        if count > MAX_DIGEST_MISMATCHES {
            let ghost listed = texts(found@);
            let mut text = String::new();
            text.append("... and ");
            push_usize(&mut text, count - MAX_DIGEST_MISMATCHES);
            text.append(" more digest mismatches (total: ");
            push_usize(&mut text, count);
            text.append(")");
            let ghost said = text@;
            found.push(text);
            assert(texts(found@) =~= listed.push(said));
            assert(said =~= "... and "@ + decimal((all.len() - MAX_DIGEST_MISMATCHES) as nat)
                + " more digest mismatches (total: "@ + decimal(all.len()) + ")"@);
        } else {
            assert(all.take(count as int) =~= all);
        }
    }
    assert(texts(found@) =~= caps + digest_differences(cpu.digests@, gpu.digests@));
    TreeComparison { differences: found, digest_mismatches }
}

/// What is reported of a tree that was built from test vectors.
#[derive(Debug)]
pub struct ConstructionReport {
    pub success: bool,
    pub num_leaves: usize,
    pub padded_size: usize,
    pub cap_height: usize,
    pub root_hash: String,
    pub num_digests: usize,
}

/// Reports on a tree that was built from padded test vectors. The tree has a cap.
pub fn test_merkle_tree_construction(
    padded: &PaddedLeaves,
    cap_height: usize,
    tree: &GpuMerkleOutput,
) -> (report: ConstructionReport)
    requires
        tree.cap@.len() > 0,
    ensures
        report.success,
        report.num_leaves == padded.num_leaves,
        report.padded_size == padded.padded_size,
        report.cap_height == cap_height,
        report.root_hash@ == root_text(tree.cap@[0]),
        report.num_digests == tree.digests@.len(),
{
    ConstructionReport {
        success: true,
        num_leaves: padded.num_leaves,
        padded_size: padded.padded_size,
        cap_height,
        root_hash: root_hash(&tree.cap[0]),
        num_digests: tree.digests.len(),
    }
}

/// What is reported of the comparison of two trees.
#[derive(Debug)]
pub struct ComparisonReport {
    pub success: bool,
    pub matches: bool,
    pub message: String,
    /// The differences, where there are any.
    pub differences: Option<String>,
    /// How many digests differ in all, however few of them are told one by one.
    pub digest_mismatches: usize,
    pub num_leaves: usize,
    pub padded_size: usize,
    pub cap_height: usize,
    pub cpu_root_hash: String,
    pub gpu_root_hash: String,
}

/// Reports how a tree built on the GPU compares with the one built on the host from the same
/// padded test vectors. Both trees have a cap.
pub fn test_merkle_tree_cpu_vs_gpu(
    padded: &PaddedLeaves,
    cap_height: usize,
    cpu: &GpuMerkleOutput,
    gpu: &GpuMerkleOutput,
) -> (report: ComparisonReport)
    requires
        cpu.cap@.len() > 0,
        gpu.cap@.len() > 0,
    ensures
        report.success,
        report.matches <==> same_digests(cpu.cap@, gpu.cap@) && same_digests(
            cpu.digests@,
            gpu.digests@,
        ),
        report.matches ==> report.message@ == "CPU and GPU results match"@
            && report.differences is None,
        !report.matches ==> {
            &&& report.message@ == decimal(differences(*cpu, *gpu).len()) + " differences found"@
            &&& report.differences matches Some(text)
            &&& text@ == join(differences(*cpu, *gpu), "\n\n"@)
        },
        report.digest_mismatches == digest_mismatch_count(cpu.digests@, gpu.digests@),
        report.num_leaves == padded.num_leaves,
        report.padded_size == padded.padded_size,
        report.cap_height == cap_height,
        report.cpu_root_hash@ == root_text(cpu.cap@[0]),
        report.gpu_root_hash@ == root_text(gpu.cap@[0]),
{
    let comparison = compare_trees(cpu, gpu);
    let digest_mismatches: usize = comparison.digest_mismatches;
    let found = comparison.differences;
    proof {
        lemma_no_differences(*cpu, *gpu);
        assert(texts(found@).len() == found@.len());
    }
    let matches = found.len() == 0;
    let mut message = String::new();
    let differences: Option<String>;
    if matches {
        message.append("CPU and GPU results match");
        differences = None;
        assert(message@ =~= "CPU and GPU results match"@);
    } else {
        push_usize(&mut message, found.len());
        message.append(" differences found");
        assert(message@ =~= decimal(found@.len()) + " differences found"@);
        differences = Some(join_texts(&found, "\n\n"));
    }
    ComparisonReport {
        success: true,
        matches,
        message,
        differences,
        digest_mismatches,
        num_leaves: padded.num_leaves,
        padded_size: padded.padded_size,
        cap_height,
        cpu_root_hash: root_hash(&cpu.cap[0]),
        gpu_root_hash: root_hash(&gpu.cap[0]),
    }
}

/// Four numbers with `, ` between them can be read back.
proof fn lemma_four_readable(numbers: Seq<nat>)
    requires
        numbers.len() == 4,
    ensures
        ({
            let pieces = split(
                join(Seq::new(4, |k: int| decimal(numbers[k])), ", "@),
                seq![',', ' '],
            );
            &&& pieces.len() == 4
            &&& forall|k: int| 0 <= k < 4 ==> writes(#[trigger] pieces[k], numbers[k] as int)
        }),
{
    let texts = Seq::new(4, |k: int| decimal(numbers[k]));
    reveal_strlit(", ");
    assert(", "@ =~= seq![',', ' ']);
    assert forall|k: int| 0 <= k < 4 implies lacks(#[trigger] texts[k], ',') && writes(
        texts[k],
        numbers[k] as int,
    ) by {
        lemma_decimal_writes(numbers[k]);
        assert forall|i: int| 0 <= i < texts[k].len() implies #[trigger] texts[k][i] != ',' by {
            assert('0' <= texts[k][i] <= '9');
        }
    }
    lemma_split_join(texts, seq![',', ' ']);
}

/// A reported root can be read back: cut at `, ` it has four pieces, and each writes one element
/// of the digest, modulo the field order.
pub proof fn lemma_root_readable(digest: HashOut)
    ensures
        ({
            let pieces = split(root_text(digest), seq![',', ' ']);
            &&& pieces.len() == 4
            &&& forall|k: int|
                0 <= k < 4 ==> writes(
                    #[trigger] pieces[k],
                    digest@[k].0 as int % 0xFFFF_FFFF_0000_0001,
                )
        }),
{
    let numbers = Seq::new(4, |k: int| (digest@[k].0 as int % 0xFFFF_FFFF_0000_0001) as nat);
    assert forall|k: int| 0 <= k < 4 implies #[trigger] numbers[k] == digest@[k].residue() by {
        lemma_same_element(digest@[k], digest@[k]);
    }
    assert(Seq::new(4, |k: int| decimal(numbers[k])) =~= Seq::new(
        4,
        |i: int| decimal(digest@[i].residue() as nat),
    ));
    lemma_four_readable(numbers);
    let pieces = split(root_text(digest), seq![',', ' ']);
    assert forall|k: int| 0 <= k < 4 implies writes(
        #[trigger] pieces[k],
        digest@[k].0 as int % 0xFFFF_FFFF_0000_0001,
    ) by {
        assert(numbers[k] == digest@[k].residue());
    }
}

/// Two digests have the same reported root just where they are equal.
pub proof fn lemma_root_tells_digests_apart(a: HashOut, b: HashOut)
    ensures
        root_text(a) == root_text(b) <==> forall|k: int|
            0 <= k < 4 ==> (#[trigger] a@[k].0 - b@[k].0) % 0xFFFF_FFFF_0000_0001 == 0,
{
    lemma_root_readable(a);
    lemma_root_readable(b);
    assert forall|k: int| 0 <= k < 4 implies (a@[k].residue() == b@[k].residue() <==> (
    #[trigger] a@[k].0 - b@[k].0) % 0xFFFF_FFFF_0000_0001 == 0) && a@[k].residue()
        == a@[k].0 as int % 0xFFFF_FFFF_0000_0001 && b@[k].residue() == b@[k].0 as int
        % 0xFFFF_FFFF_0000_0001 by {
        lemma_same_element(a@[k], b@[k]);
    }
    if root_text(a) == root_text(b) {
        assert forall|k: int| 0 <= k < 4 implies (#[trigger] a@[k].0 - b@[k].0)
            % 0xFFFF_FFFF_0000_0001 == 0 by {
            let piece = split(root_text(a), seq![',', ' '])[k];
            assert(writes(piece, a@[k].0 as int % 0xFFFF_FFFF_0000_0001));
            assert(writes(
                split(root_text(b), seq![',', ' '])[k],
                b@[k].0 as int % 0xFFFF_FFFF_0000_0001,
            ));
        }
    }
    if forall|k: int| 0 <= k < 4 ==> (#[trigger] a@[k].0 - b@[k].0) % 0xFFFF_FFFF_0000_0001 == 0 {
        assert forall|k: int| 0 <= k < 4 implies a@[k].residue() == b@[k].residue() by {
            assert((a@[k].0 - b@[k].0) % 0xFFFF_FFFF_0000_0001 == 0);
        }
        assert(Seq::new(4, |i: int| decimal(a@[i].residue() as nat)) =~= Seq::new(
            4,
            |i: int| decimal(b@[i].residue() as nat),
        ));
    }
}

/// A digest told among the differences can be read back: between the brackets, cut at `, `, stand
/// four pieces, and each writes the raw value of one element.
pub proof fn lemma_digest_readable(digest: HashOut)
    ensures
        ({
            let text = digest_text(digest);
            let pieces = split(text.subrange(1, text.len() - 1), seq![',', ' ']);
            &&& text.len() >= 2
            &&& text[0] == '[' && text.last() == ']'
            &&& pieces.len() == 4
            &&& forall|k: int| 0 <= k < 4 ==> writes(#[trigger] pieces[k], digest@[k].0 as int)
        }),
{
    let text = digest_text(digest);
    let numbers = Seq::new(4, |k: int| digest@[k].0 as nat);
    let inner = join(Seq::new(4, |k: int| decimal(numbers[k])), ", "@);
    assert(Seq::new(4, |k: int| decimal(numbers[k])) =~= Seq::new(
        4,
        |i: int| decimal(digest@[i].0 as nat),
    ));
    reveal_strlit("[");
    reveal_strlit("]");
    assert(text.subrange(1, text.len() - 1) =~= inner);
    lemma_four_readable(numbers);
}

/// What is said of two digests that differ names the position and shows both digests.
pub proof fn lemma_mismatch_readable(what: Seq<char>, i: nat, cpu: HashOut, gpu: HashOut)
    ensures
        exists|position: Seq<char>| #[trigger]
            writes(position, i as int) && mismatch_text(what, i, cpu, gpu) == what + "["@ + position
                + "] mismatch:\n  CPU: "@ + digest_text(cpu) + "\n  GPU: "@ + digest_text(gpu),
{
    lemma_decimal_writes(i);
}

/// What is said of runs that are not of the same length names both lengths.
pub proof fn lemma_length_readable(what: Seq<char>, cpu: nat, gpu: nat)
    ensures
        exists|c: Seq<char>, g: Seq<char>| #[trigger]
            writes(c, cpu as int) && #[trigger] writes(g, gpu as int) && length_text(what, cpu, gpu)
                == what + " length mismatch: CPU="@ + c + ", GPU="@ + g,
{
    lemma_decimal_writes(cpu);
    lemma_decimal_writes(gpu);
}

/// The differences between two caps: their lengths where these differ, else one for each position
/// at which they differ, in order.
pub proof fn lemma_cap_differences(cpu: Seq<HashOut>, gpu: Seq<HashOut>)
    ensures
        cpu.len() != gpu.len() ==> cap_differences(cpu, gpu) == seq![
            length_text("Cap"@, cpu.len(), gpu.len()),
        ],
        cpu.len() == gpu.len() ==> {
            let all = mismatches(cpu, gpu, cpu.len());
            &&& cap_differences(cpu, gpu).len() == all.len()
            &&& forall|j: int|
                0 <= j < all.len() ==> #[trigger] cap_differences(cpu, gpu)[j] == mismatch_text(
                    "Cap"@,
                    all[j],
                    cpu[all[j] as int],
                    gpu[all[j] as int],
                )
        },
{
}

/// The differences between the digests of two trees: their numbers where these differ, else one for
/// each of the first ten positions at which they differ, in order, and behind ten, where there are
/// more, one that says how many more and how many in all.
pub proof fn lemma_digest_differences(cpu: Seq<HashOut>, gpu: Seq<HashOut>)
    ensures
        cpu.len() != gpu.len() ==> digest_differences(cpu, gpu) == seq![
            length_text("Digests"@, cpu.len(), gpu.len()),
        ],
        cpu.len() == gpu.len() ==> {
            let all = mismatches(cpu, gpu, cpu.len());
            let told = digest_differences(cpu, gpu);
            &&& all.len() <= 10 ==> told.len() == all.len()
            &&& all.len() > 10 ==> told.len() == 11
            &&& forall|j: int|
                0 <= j < all.len() && j < 10 ==> #[trigger] told[j] == mismatch_text(
                    "Digest"@,
                    all[j],
                    cpu[all[j] as int],
                    gpu[all[j] as int],
                )
            &&& all.len() > 10 ==> exists|more: Seq<char>, total: Seq<char>| #[trigger]
                writes(more, all.len() - 10) && #[trigger] writes(total, all.len() as int)
                    && told[10] == "... and "@ + more + " more digest mismatches (total: "@ + total
                    + ")"@
        },
{
    let all = mismatches(cpu, gpu, cpu.len());
    if cpu.len() == gpu.len() && all.len() > 10 {
        lemma_decimal_writes((all.len() - 10) as nat);
        lemma_decimal_writes(all.len());
        let told = digest_differences(cpu, gpu);
        assert(told[10] == "... and "@ + decimal((all.len() - 10) as nat)
            + " more digest mismatches (total: "@ + decimal(all.len()) + ")"@);
    }
}

/// One more pair of digests counts one more mismatch just where the two differ.
pub proof fn lemma_count_one_more(
    cpu: Seq<HashOut>,
    gpu: Seq<HashOut>,
    a: HashOut,
    b: HashOut,
)
    requires
        cpu.len() == gpu.len(),
    ensures
        digest_mismatch_count(Seq::empty(), Seq::empty()) == 0,
        digest_mismatch_count(cpu.push(a), gpu.push(b)) == digest_mismatch_count(cpu, gpu) + (if (
        forall|k: int|
            0 <= k < 4 ==> (#[trigger] a@[k].0 - b@[k].0) % 0xFFFF_FFFF_0000_0001 == 0) {
            0int
        } else {
            1int
        }),
{
    lemma_mismatches_of_prefix(cpu, gpu, a, b, cpu.len());
    lemma_same_digest(a, b);
    let longer = mismatches(cpu.push(a), gpu.push(b), cpu.len() + 1);
    assert(cpu.push(a)[cpu.len() as int] == a && gpu.push(b)[cpu.len() as int] == b);
}

/// Digests behind do not change the mismatches before.
proof fn lemma_mismatches_of_prefix(
    cpu: Seq<HashOut>,
    gpu: Seq<HashOut>,
    a: HashOut,
    b: HashOut,
    len: nat,
)
    requires
        cpu.len() == gpu.len(),
        len <= cpu.len(),
    ensures
        mismatches(cpu.push(a), gpu.push(b), len) == mismatches(cpu, gpu, len),
    decreases len,
{
    if len > 0 {
        lemma_mismatches_of_prefix(cpu, gpu, a, b, (len - 1) as nat);
    }
}

/// Two runs of digests agree just where they are of the same length and each pair of elements
/// differs by a multiple of the field order.
pub proof fn lemma_agreement(cpu: Seq<HashOut>, gpu: Seq<HashOut>)
    ensures
        same_digests(cpu, gpu) <==> cpu.len() == gpu.len() && forall|i: int, k: int|
            0 <= i < cpu.len() && 0 <= k < 4 ==> (#[trigger] cpu[i]@[k].0 - gpu[i]@[k].0)
                % 0xFFFF_FFFF_0000_0001 == 0,
{
    assert forall|i: int| 0 <= i < cpu.len() && cpu.len() == gpu.len() implies ((
    #[trigger] cpu[i]).residues() == gpu[i].residues() <==> forall|k: int|
        0 <= k < 4 ==> (#[trigger] cpu[i]@[k].0 - gpu[i]@[k].0) % 0xFFFF_FFFF_0000_0001 == 0) by {
        lemma_same_digest(cpu[i], gpu[i]);
    }
    if cpu.len() == gpu.len() {
        if same_digests(cpu, gpu) {
            assert forall|i: int, k: int| 0 <= i < cpu.len() && 0 <= k < 4 implies (
            #[trigger] cpu[i]@[k].0 - gpu[i]@[k].0) % 0xFFFF_FFFF_0000_0001 == 0 by {
                assert(cpu[i].residues() == gpu[i].residues());
            }
        }
        if forall|i: int, k: int|
            0 <= i < cpu.len() && 0 <= k < 4 ==> (#[trigger] cpu[i]@[k].0 - gpu[i]@[k].0)
                % 0xFFFF_FFFF_0000_0001 == 0 {
            assert forall|i: int| 0 <= i < cpu.len() implies (#[trigger] cpu[i]).residues()
                == gpu[i].residues() by {
                assert forall|k: int| 0 <= k < 4 implies (#[trigger] cpu[i]@[k].0 - gpu[i]@[k].0)
                    % 0xFFFF_FFFF_0000_0001 == 0 by {
                }
            }
        }
    }
}

/// The differences of two trees are those of their caps and then those of their digests, and none
/// is left out or told twice.
pub proof fn lemma_caps_told_first(cpu: GpuMerkleOutput, gpu: GpuMerkleOutput, i: int)
    requires
        0 <= i,
    ensures
        ({
            let caps = cap_differences(cpu.cap@, gpu.cap@);
            let digests = digest_differences(cpu.digests@, gpu.digests@);
            let all = differences(cpu, gpu);
            &&& all.len() == caps.len() + digests.len()
            &&& i < caps.len() ==> all[i] == caps[i]
            &&& i < digests.len() ==> all[caps.len() + i] == digests[i]
        }),
{
}

} // verus!
