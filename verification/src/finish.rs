//! Finishing a job: wait for the queue, read leaf digests, nodes and cap back, and put the tree
//! together.
use crate::digests::{
    hashes_pairwise, host_digests, leaf_run, lemma_digest_place, lemma_subtree_digests_len,
    lemma_subtree_place, lemma_tree_mirrors_host, merkle_root, reconstruct_digests, tree_digests,
};
use crate::gpu::BufferId;
use crate::job::{
    lemma_internal_nodes, lemma_shape_numbers, lemma_shape_sizes, GpuMerkleOutput, MerkleGpuJob,
    MerkleGpuJobState, TreeShape,
};
use crate::layers::{
    layer_size, lemma_node_place, lemma_pow2_monotonic, LayerAccessor, TreeLayers,
};
use crate::plan::{layer_args, MerkleTreeKernelArgs};
use crate::words::{
    decode_digests, lemma_digest_from_words, words_as_digests, HashOut, WordCountError,
    WORDS_PER_DIGEST,
};
use vstd::arithmetic::power2::*;
use vstd::prelude::*;

verus! {

/// What has to be done next to finish a job.
#[derive(Clone, Copy, Debug, PartialEq, Eq, Structural)]
pub enum FinishAction {
    /// Wait until the GPU has done all submitted work.
    WaitForQueue,
    /// Read this many words of the buffer back.
    Read { buffer: BufferId, word_len: u64 },
}

/// How far a job has been finished.
#[derive(Debug)]
pub enum FinishStage {
    /// The queue has to drain.
    Queue,
    /// The leaf digests are to be read.
    Leaves,
    /// The nodes are to be read.
    Nodes { leaf_hashes: Vec<HashOut> },
    /// The cap is to be read.
    Cap { leaf_hashes: Vec<HashOut>, node_hashes: Vec<HashOut> },
}

/// A job that is being finished.
#[derive(Debug)]
pub struct FinishingJob {
    pub shape: TreeShape,
    pub stage: FinishStage,
}

/// A job is finished, or goes on.
#[derive(Debug)]
pub enum FinishProgress {
    /// There is more to do.
    More(FinishingJob),
    /// The tree is there.
    Done(GpuMerkleOutput),
}

/// The digests of a tree, read from the words of its three buffers.
pub open spec fn tree_of_words(
    leaf_words: Seq<u32>,
    node_words: Seq<u32>,
    cap_words: Seq<u32>,
    layers_to_cap: nat,
) -> TreeLayers {
    TreeLayers {
        leaves: words_as_digests(leaf_words),
        nodes: words_as_digests(node_words),
        cap: words_as_digests(cap_words),
        layers_to_cap,
    }
}

/// The output holds the cap and the digest array of the tree.
pub open spec fn output_of_tree(output: GpuMerkleOutput, tree: TreeLayers) -> bool {
    &&& output.cap@ == tree.cap
    &&& output.digests@ == tree_digests(tree, tree.cap.len())
}

impl FinishingJob {
    /// What was read so far has the sizes of the tree.
    pub open spec fn wf(self) -> bool {
        &&& self.shape.wf()
        &&& match self.stage {
            FinishStage::Queue => true,
            FinishStage::Leaves => true,
            FinishStage::Nodes { leaf_hashes } => leaf_hashes@.len() == self.shape.num_leaves,
            FinishStage::Cap { leaf_hashes, node_hashes } => {
                &&& leaf_hashes@.len() == self.shape.num_leaves
                &&& node_hashes@.len() == self.shape.total_nodes
            },
        }
    }

    /// Digests that are to be read next.
    pub open spec fn digests_to_read(self) -> nat {
        match self.stage {
            FinishStage::Queue => 0,
            FinishStage::Leaves => self.shape.num_leaves as nat,
            FinishStage::Nodes { .. } => self.shape.total_nodes as nat,
            FinishStage::Cap { .. } => self.shape.cap_len as nat,
        }
    }

    /// What has to be done next.
    pub fn action(&self) -> (action: FinishAction)
        requires
            self.wf(),
        ensures
            action == match self.stage {
                FinishStage::Queue => FinishAction::WaitForQueue,
                FinishStage::Leaves => FinishAction::Read {
                    buffer: BufferId::LeafDigests,
                    word_len: (self.shape.num_leaves * WORDS_PER_DIGEST) as u64,
                },
                FinishStage::Nodes { .. } => FinishAction::Read {
                    buffer: BufferId::Nodes,
                    word_len: (self.shape.total_nodes * WORDS_PER_DIGEST) as u64,
                },
                FinishStage::Cap { .. } => FinishAction::Read {
                    buffer: BufferId::Cap,
                    word_len: (self.shape.cap_len * WORDS_PER_DIGEST) as u64,
                },
            },
            action matches FinishAction::Read { word_len, .. } ==> word_len == 8
                * self.digests_to_read(),
    {
        proof {
            lemma_shape_sizes(
                self.shape.num_leaves as nat,
                self.shape.cap_height as nat,
                self.shape.num_layers_to_cap as nat,
            );
        }
        match &self.stage {
            FinishStage::Queue => FinishAction::WaitForQueue,
            FinishStage::Leaves => FinishAction::Read {
                buffer: BufferId::LeafDigests,
                word_len: self.shape.num_leaves as u64 * WORDS_PER_DIGEST as u64,
            },
            FinishStage::Nodes { .. } => FinishAction::Read {
                buffer: BufferId::Nodes,
                word_len: self.shape.total_nodes as u64 * WORDS_PER_DIGEST as u64,
            },
            FinishStage::Cap { .. } => FinishAction::Read {
                buffer: BufferId::Cap,
                word_len: self.shape.cap_len as u64 * WORDS_PER_DIGEST as u64,
            },
        }
    }

    /// Goes on once the queue has drained.
    pub fn queue_drained(self) -> (next: FinishingJob)
        requires
            self.wf(),
            self.stage is Queue,
        ensures
            next.wf(),
            next.shape == self.shape,
            next.stage == FinishStage::Leaves,
    {
        FinishingJob { shape: self.shape, stage: FinishStage::Leaves }
    }

    /// Goes on with the words that were read. Words that do not make whole digests are an error;
    /// whole digests have to be as many as were asked for.
    pub fn words_read(self, words: &[u32]) -> (result: Result<FinishProgress, WordCountError>)
        requires
            self.wf(),
            !(self.stage is Queue),
            words@.len() % 8 == 0 ==> words@.len() == 8 * self.digests_to_read(),
        ensures
            words@.len() % 8 != 0 ==> result == Err::<FinishProgress, WordCountError>(
                WordCountError { got: (words@.len() % 8) as usize },
            ),
            words@.len() % 8 == 0 ==> match self.stage {
                FinishStage::Queue => true,
                FinishStage::Leaves => {
                    &&& result matches Ok(FinishProgress::More(next))
                    &&& next.wf()
                    &&& next.shape == self.shape
                    &&& next.stage matches FinishStage::Nodes { leaf_hashes }
                    &&& leaf_hashes@ == words_as_digests(words@)
                },
                FinishStage::Nodes { leaf_hashes } => {
                    &&& result matches Ok(FinishProgress::More(next))
                    &&& next.wf()
                    &&& next.shape == self.shape
                    &&& next.stage matches FinishStage::Cap { leaf_hashes: kept, node_hashes }
                    &&& kept == leaf_hashes
                    &&& node_hashes@ == words_as_digests(words@)
                },
                FinishStage::Cap { leaf_hashes, node_hashes } => {
                    &&& result matches Ok(FinishProgress::Done(output))
                    &&& output_of_tree(
                        output,
                        TreeLayers {
                            leaves: leaf_hashes@,
                            nodes: node_hashes@,
                            cap: words_as_digests(words@),
                            layers_to_cap: self.shape.num_layers_to_cap as nat,
                        },
                    )
                    &&& output.cap@.len() == self.shape.cap_len
                    &&& output.digests@.len() == 2 * (self.shape.num_leaves - self.shape.cap_len)
                },
            },
    {
        let hashes: Vec<HashOut> = match decode_digests(words) {
            Ok(hashes) => hashes,
            Err(error) => return Err(error),
        };
        let shape = self.shape;
        match self.stage {
            FinishStage::Queue => Ok(
                FinishProgress::More(FinishingJob { shape, stage: FinishStage::Queue }),
            ),
            FinishStage::Leaves => Ok(
                FinishProgress::More(
                    FinishingJob { shape, stage: FinishStage::Nodes { leaf_hashes: hashes } },
                ),
            ),
            FinishStage::Nodes { leaf_hashes } => Ok(
                FinishProgress::More(
                    FinishingJob {
                        shape,
                        stage: FinishStage::Cap { leaf_hashes, node_hashes: hashes },
                    },
                ),
            ),
            FinishStage::Cap { leaf_hashes, node_hashes } => {
                proof {
                    lemma_shape_sizes(
                        shape.num_leaves as nat,
                        shape.cap_height as nat,
                        shape.num_layers_to_cap as nat,
                    );
                }
                let accessor = LayerAccessor::new(
                    leaf_hashes.as_slice(),
                    node_hashes.as_slice(),
                    hashes.as_slice(),
                    shape.num_leaves,
                    shape.num_layers_to_cap,
                );
                let digests = reconstruct_digests(&accessor);
                Ok(FinishProgress::Done(GpuMerkleOutput { digests, cap: hashes }))
            },
        }
    }
}

impl MerkleGpuJob {
    /// Starts finishing the job; a result that is there already is handed out at once.
    pub fn finish(self) -> (progress: FinishProgress)
        requires
            self.wf(),
        ensures
            match self.state {
                MerkleGpuJobState::Immediate(output) => progress == FinishProgress::Done(output),
                MerkleGpuJobState::Deferred { shape, .. } => {
                    &&& progress matches FinishProgress::More(next)
                    &&& next.wf()
                    &&& next.shape == shape
                    &&& next.stage == FinishStage::Queue
                },
            },
    {
        match self.state {
            MerkleGpuJobState::Immediate(output) => FinishProgress::Done(output),
            MerkleGpuJobState::Deferred { shape, .. } => FinishProgress::More(
                FinishingJob { shape, stage: FinishStage::Queue },
            ),
        }
    }

    /// Finishes the job with the words of its three buffers, once the queue has drained. The
    /// first buffer that does not hold whole digests is the error; whole digests have to be as
    /// many as the tree has.
    pub fn wait(self, leaf_words: &[u32], node_words: &[u32], cap_words: &[u32]) -> (result: Result<
        GpuMerkleOutput,
        WordCountError,
    >)
        requires
            self.wf(),
            self.state matches MerkleGpuJobState::Deferred { shape, .. } ==> {
                &&& leaf_words@.len() % 8 == 0 ==> leaf_words@.len() == 8 * shape.num_leaves
                &&& node_words@.len() % 8 == 0 ==> node_words@.len() == 8 * shape.total_nodes
                &&& cap_words@.len() % 8 == 0 ==> cap_words@.len() == 8 * shape.cap_len
            },
        ensures
            match self.state {
                MerkleGpuJobState::Immediate(output) => result == Ok::<
                    GpuMerkleOutput,
                    WordCountError,
                >(output),
                MerkleGpuJobState::Deferred { shape, .. } => match result {
                    Ok(output) => {
                        &&& leaf_words@.len() == 8 * shape.num_leaves
                        &&& node_words@.len() == 8 * shape.total_nodes
                        &&& cap_words@.len() == 8 * shape.cap_len
                        &&& output_of_tree(
                            output,
                            tree_of_words(
                                leaf_words@,
                                node_words@,
                                cap_words@,
                                shape.num_layers_to_cap as nat,
                            ),
                        )
                        &&& output.cap@.len() == shape.cap_len
                        &&& output.digests@.len() == 2 * (shape.num_leaves - shape.cap_len)
                    },
                    Err(error) => if leaf_words@.len() % 8 != 0 {
                        error.got == leaf_words@.len() % 8
                    } else if node_words@.len() % 8 != 0 {
                        error.got == node_words@.len() % 8
                    } else {
                        cap_words@.len() % 8 != 0 && error.got == cap_words@.len() % 8
                    },
                },
            },
    {
        let waiting = match self.finish() {
            FinishProgress::Done(output) => return Ok(output),
            FinishProgress::More(waiting) => waiting,
        };
        let reading = waiting.queue_drained();
        let with_leaves = match reading.words_read(leaf_words) {
            Ok(FinishProgress::More(next)) => next,
            Ok(FinishProgress::Done(output)) => return Ok(output),
            Err(error) => return Err(error),
        };
        let with_nodes = match with_leaves.words_read(node_words) {
            Ok(FinishProgress::More(next)) => next,
            Ok(FinishProgress::Done(output)) => return Ok(output),
            Err(error) => return Err(error),
        };
        match with_nodes.words_read(cap_words) {
            Ok(FinishProgress::Done(output)) => Ok(output),
            Ok(FinishProgress::More(_)) => Err(WordCountError { got: 0 }),
            Err(error) => Err(error),
        }
    }
}

/// The digest that a layer dispatch reads at position `i` of its source layer.
pub open spec fn read_digest(tree: TreeLayers, args: MerkleTreeKernelArgs, i: nat) -> HashOut {
    if args.layer == 0 {
        tree.leaves[i as int]
    } else {
        tree.nodes[args.src_offset + i]
    }
}

/// The digest that a layer dispatch writes at position `i` of its target layer.
pub open spec fn written_digest(tree: TreeLayers, args: MerkleTreeKernelArgs, i: nat) -> HashOut {
    if args.write_to_cap != 0 {
        tree.cap[i as int]
    } else {
        tree.nodes[args.dst_offset + i]
    }
}

/// The buffers hold what a layer dispatch with these arguments leaves there: each digest of the
/// target layer is the hash of two neighbours of the source layer.
pub open spec fn layer_hashed(
    tree: TreeLayers,
    args: MerkleTreeKernelArgs,
    two_to_one: spec_fn(HashOut, HashOut) -> HashOut,
) -> bool {
    forall|i: nat|
        i < args.dst_layer_size ==> #[trigger] written_digest(tree, args, i) == two_to_one(
            read_digest(tree, args, 2 * i),
            read_digest(tree, args, 2 * i + 1),
        )
}

/// Where each of the layer dispatches did what its arguments say, every inner node of the tree is
/// the hash of its two children.
pub proof fn lemma_dispatches_hash_pairwise(
    tree: TreeLayers,
    shape: TreeShape,
    two_to_one: spec_fn(HashOut, HashOut) -> HashOut,
)
    requires
        shape.wf(),
        tree.leaves.len() == shape.num_leaves,
        tree.layers_to_cap == shape.num_layers_to_cap,
        forall|layer: nat|
            layer < shape.num_layers_to_cap ==> layer_hashed(
                tree,
                #[trigger] layer_args(
                    shape.num_leaves as nat,
                    shape.num_layers_to_cap as nat,
                    shape.cap_len as nat,
                    layer,
                ),
                two_to_one,
            ),
    ensures
        hashes_pairwise(tree, two_to_one),
{
    let n = shape.num_leaves as nat;
    let layers = shape.num_layers_to_cap as nat;
    assert forall|layer: nat, i: nat|
        layer < tree.layers_to_cap && i < layer_size(
            tree.leaves.len(),
            layer + 1,
        ) implies #[trigger] tree.at(layer + 1, i) == two_to_one(
        tree.at(layer, 2 * i),
        tree.at(layer, 2 * i + 1),
    ) by {
        lemma_shape_sizes(n, shape.cap_height as nat, layer);
        lemma_shape_sizes(n, shape.cap_height as nat, layer + 1);
        let args = layer_args(n, layers, shape.cap_len as nat, layer);
        assert(layer_hashed(tree, args, two_to_one));
        assert(written_digest(tree, args, i) == tree.at(layer + 1, i));
        assert(read_digest(tree, args, 2 * i) == tree.at(layer, 2 * i));
        assert(read_digest(tree, args, 2 * i + 1) == tree.at(layer, 2 * i + 1));
    }
}

/// Where the GPU made every inner node the hash of its two children, the finished job holds just
/// what a recursive construction on the host gives over the same leaf digests: its digest array,
/// and its roots as the cap.
pub proof fn lemma_output_mirrors_host(
    output: GpuMerkleOutput,
    shape: TreeShape,
    leaf_words: Seq<u32>,
    node_words: Seq<u32>,
    cap_words: Seq<u32>,
    two_to_one: spec_fn(HashOut, HashOut) -> HashOut,
)
    requires
        shape.wf(),
        leaf_words.len() == 8 * shape.num_leaves,
        node_words.len() == 8 * shape.total_nodes,
        cap_words.len() == 8 * shape.cap_len,
        output_of_tree(
            output,
            tree_of_words(leaf_words, node_words, cap_words, shape.num_layers_to_cap as nat),
        ),
        hashes_pairwise(
            tree_of_words(leaf_words, node_words, cap_words, shape.num_layers_to_cap as nat),
            two_to_one,
        ),
    ensures
        output.digests@ == host_digests(
            two_to_one,
            words_as_digests(leaf_words),
            shape.num_layers_to_cap as nat,
            shape.cap_len as nat,
        ),
        output.cap@.len() == shape.cap_len,
        forall|i: nat|
            i < shape.cap_len ==> #[trigger] output.cap@[i as int] == merkle_root(
                two_to_one,
                leaf_run(words_as_digests(leaf_words), shape.num_layers_to_cap as nat, i),
            ),
{
    let layers = shape.num_layers_to_cap as nat;
    lemma_shape_sizes(shape.num_leaves as nat, shape.cap_height as nat, layers);
    lemma_internal_nodes(shape.num_leaves as nat, shape.cap_height as nat);
    let tree = tree_of_words(leaf_words, node_words, cap_words, layers);
    assert(tree.full());
    lemma_tree_mirrors_host(tree, two_to_one);
}

/// Each digest of the cap is made up of its eight words in the buffer of the cap, two to an
/// element, the low one first.
pub proof fn lemma_cap_from_words(
    output: GpuMerkleOutput,
    leaf_words: Seq<u32>,
    node_words: Seq<u32>,
    cap_words: Seq<u32>,
    layers_to_cap: nat,
    i: int,
    k: int,
)
    requires
        output_of_tree(output, tree_of_words(leaf_words, node_words, cap_words, layers_to_cap)),
        0 <= i,
        8 * i + 8 <= cap_words.len(),
        0 <= k < 4,
    ensures
        output.cap@.len() == cap_words.len() / 8,
        output.cap@[i]@[k].0 == cap_words[8 * i + 2 * k] + 0x1_0000_0000 * cap_words[8 * i + 2 * k
            + 1],
{
    lemma_digest_from_words(cap_words, i, k);
}

/// Which words make up a digest of the output. In the digest array of subtree `s` below the cap,
/// digest `b` of pair `q` of layer `j` lies at `2 (q 2^(j + 1) + 2^j - 1) + b`, and the arrays lie
/// one after the other. In the buffers it is node `s 2^(l - j) + 2 q + b` of its layer, where `l`
/// layers lead up to the cap; the layers of the node buffer lie one after the other, from the one
/// above the leaves on, each with half as many nodes as the one before.
pub proof fn lemma_digest_from_buffers(
    output: GpuMerkleOutput,
    shape: TreeShape,
    leaf_words: Seq<u32>,
    node_words: Seq<u32>,
    cap_words: Seq<u32>,
    s: nat,
    j: nat,
    q: nat,
    b: nat,
    k: int,
)
    requires
        shape.wf(),
        leaf_words.len() == 8 * shape.num_leaves,
        node_words.len() == 8 * shape.total_nodes,
        cap_words.len() == 8 * shape.cap_len,
        output_of_tree(
            output,
            tree_of_words(leaf_words, node_words, cap_words, shape.num_layers_to_cap as nat),
        ),
        s < shape.cap_len,
        j < shape.num_layers_to_cap,
        q < pow2((shape.num_layers_to_cap - 1 - j) as nat),
        b < 2,
        0 <= k < 4,
    ensures
        ({
            let layers = shape.num_layers_to_cap as nat;
            let place = s * (2 * (pow2(layers) - 1)) + (2 * (q * pow2(j + 1) + pow2(j) - 1) + b);
            let node: int = s * pow2((layers - j) as nat) + 2 * q + b as int;
            let first = shape.num_leaves - pow2((shape.cap_height + layers - j + 1) as nat);
            let words = if j == 0 {
                leaf_words
            } else {
                node_words
            };
            let at = if j == 0 {
                8 * node
            } else {
                8 * (first + node)
            };
            &&& 0 <= place < output.digests@.len()
            &&& 0 <= at <= words.len() - 8
            &&& output.digests@[place]@[k].0 == words[at + 2 * k] + 0x1_0000_0000 * words[at + 2 * k
                + 1]
        }),
{
    let layers = shape.num_layers_to_cap as nat;
    let cap_height = shape.cap_height as nat;
    let depth = cap_height + layers;
    let tree = tree_of_words(leaf_words, node_words, cap_words, layers);
    let inner = 2 * (q * pow2(j + 1) + pow2(j) - 1) + b;
    let node = (s * pow2((layers - j) as nat) + 2 * q + b) as nat;
    let width = pow2((layers - j) as nat);
    lemma_shape_numbers(shape);
    lemma_pow2_adds(cap_height, layers);
    lemma_pow2_adds(cap_height, (layers - j) as nat);
    lemma_digest_from_words(leaf_words, 0, 0);
    assert(tree.leaves.len() == pow2(depth));
    lemma_digest_place(tree, layers, s, j, q, b);
    lemma_subtree_digests_len(tree, layers, s * pow2(layers));
    lemma_subtree_place(tree, shape.cap_len as nat, s, inner);
    lemma_node_place(tree, depth, j, node);
    lemma_pow2_unfold((layers - j) as nat);
    assert(node < shape.cap_len * width) by (nonlinear_arith)
        requires
            s + 1 <= shape.cap_len,
            node < s * width + width,
            width >= 0,
    ;
    assert(node < pow2((depth - j) as nat));
    if j == 0 {
        lemma_digest_from_words(leaf_words, node as int, k);
    } else {
        lemma_pow2_unfold((depth - j + 1) as nat);
        lemma_pow2_unfold(cap_height + 1);
        lemma_pow2_monotonic(cap_height + 1, (depth - j) as nat);
        lemma_pow2_monotonic((depth - j + 1) as nat, depth);
        lemma_digest_from_words(node_words, pow2(depth) - pow2((depth - j + 1) as nat) + node, k);
    }
}

} // verus!
