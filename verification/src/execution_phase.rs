//! The execution phase of the pipeline: it takes blocks in their order,
//! has them executed, and hands them back with the results.

use crate::hash::HashValue;
use vstd::prelude::*;

verus! {

/// A block as the execution phase reads it.
#[derive(Debug, PartialEq, Eq)]
pub struct Block {
    pub id: HashValue,
    pub parent_id: HashValue,
    pub payload: Vec<u8>,
}

impl Clone for Block {
    fn clone(&self) -> (r: Self)
        ensures
            r.id == self.id,
            r.parent_id == self.parent_id,
            r.payload@ == self.payload@,
    {
        Block { id: self.id, parent_id: self.parent_id, payload: self.payload.clone() }
    }
}

/// What executing a block came to.
#[derive(Debug, PartialEq, Eq)]
pub struct StateComputeResult {
    pub root_hash: HashValue,
    pub num_leaves: u64,
}

/// A block with what executing it came to.
#[derive(Debug, PartialEq, Eq)]
pub struct ExecutedBlock {
    pub block: Block,
    pub state_compute_result: StateComputeResult,
}

impl ExecutedBlock {
    pub fn new(block: Block, state_compute_result: StateComputeResult) -> (r: Self)
        ensures
            r.block == block,
            r.state_compute_result == state_compute_result,
    {
        ExecutedBlock { block, state_compute_result }
    }

    pub fn block(&self) -> (r: &Block)
        ensures
            *r == self.block,
    {
        &self.block
    }

    pub fn id(&self) -> (r: HashValue)
        ensures
            r == self.block.id,
    {
        self.block.id
    }

    pub fn parent_id(&self) -> (r: HashValue)
        ensures
            r == self.block.parent_id,
    {
        self.block.parent_id
    }
}

/// Why a block was not executed.
#[derive(Debug, PartialEq, Eq)]
pub enum ExecutionError {
    BlockNotFound(HashValue),
    InternalError { error: String },
}

/// What executes blocks.
pub trait StateComputer {
    /// Executes `block` on the state behind the block with the id
    /// `parent_block_id`.
    fn compute(&self, block: &Block, parent_block_id: HashValue) -> Result<
        StateComputeResult,
        ExecutionError,
    >;
}

/// Blocks to execute, in their order.
#[derive(Debug)]
pub struct ExecutionRequest {
    pub ordered_blocks: Vec<ExecutedBlock>,
}

/// The blocks as they were executed, or the reason for which one was not;
/// and the id of the last block of the request.
#[derive(Debug)]
pub struct ExecutionResponse {
    pub block_id: HashValue,
    pub inner: Result<Vec<ExecutedBlock>, ExecutionError>,
}

/// Receives ordered blocks and has them executed.
pub struct ExecutionPhase<C> {
    pub execution_proxy: C,
}

impl<C: StateComputer> ExecutionPhase<C> {
    pub fn new(execution_proxy: C) -> (r: Self)
        ensures
            r.execution_proxy == execution_proxy,
    {
        Self { execution_proxy }
    }

    /// Has the blocks of a request executed in their order, up to the first
    /// that fails. The request holds a block.
    pub fn process(&self, req: ExecutionRequest) -> (r: ExecutionResponse)
        requires
            req.ordered_blocks@.len() > 0,
        ensures
            r.block_id == req.ordered_blocks@.last().block.id,
            r.inner is Ok ==> r.inner->Ok_0@.len() == req.ordered_blocks@.len() && forall|i: int|
                0 <= i < req.ordered_blocks@.len() ==> {
                    &&& (#[trigger] r.inner->Ok_0@[i]).block.id == req.ordered_blocks@[i].block.id
                    &&& r.inner->Ok_0@[i].block.parent_id == req.ordered_blocks@[i].block.parent_id
                    &&& r.inner->Ok_0@[i].block.payload@ == req.ordered_blocks@[i].block.payload@
                },
    {
        let ordered_blocks = req.ordered_blocks;
        let block_id = ordered_blocks[ordered_blocks.len() - 1].id();
        let mut executed: Vec<ExecutedBlock> = Vec::new();
        let mut i: usize = 0;
        while i < ordered_blocks.len()
            invariant
                i <= ordered_blocks.len(),
                ordered_blocks == req.ordered_blocks,
                ordered_blocks@.len() > 0,
                block_id == ordered_blocks@.last().block.id,
                executed@.len() == i,
                forall|j: int|
                    0 <= j < i ==> {
                        &&& (#[trigger] executed@[j]).block.id == ordered_blocks@[j].block.id
                        &&& executed@[j].block.parent_id == ordered_blocks@[j].block.parent_id
                        &&& executed@[j].block.payload@ == ordered_blocks@[j].block.payload@
                    },
            decreases ordered_blocks.len() - i,
        {
            let b = &ordered_blocks[i];
            match self.execution_proxy.compute(b.block(), b.parent_id()) {
                Ok(state_compute_result) => {
                    executed.push(ExecutedBlock::new(b.block().clone(), state_compute_result));
                },
                Err(e) => {
                    return ExecutionResponse { block_id, inner: Err(e) };
                },
            }
            i += 1;
        }
        ExecutionResponse { block_id, inner: Ok(executed) }
    }
}

} // verus!
