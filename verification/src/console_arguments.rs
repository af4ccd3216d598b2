//! What the command line asks for, as plain values.
use vstd::prelude::*;
use crate::matrix::grid::Grid;
use crate::matrix::matrix::{Matrix, MultiplyError};
use crate::matrix::mixed_mul::mixed_mul;
use crate::matrix::naive_mul::{naive_mul, naive_product};
use crate::matrix::strassen_mul::{square_product, strassen_mul};

verus! {

/// The way to multiply two square matrices of one size.
#[derive(Clone, Copy, Debug, PartialEq, Eq, Structural)]
pub enum MultiplicationMethod {
    /// One sum of products for each element.
    Naive,
    /// Seven products of half the size, down to a size of 512.
    Strassen,
    /// Seven products of half the size, down to a size of 32.
    Mixed,
}

/// What `solve` was asked to do.
#[derive(Debug)]
pub struct SolveArguments {
    /// The files to read graphs from.
    pub input_files: Vec<String>,
    /// The file to write the answers to, where there is one.
    pub output_file: Option<String>,
    /// The way to square adjacency matrices.
    pub mul_method: MultiplicationMethod,
    /// Whether to show each graph beside its answer.
    pub verbose: bool,
}

/// What `generate` was asked to do.
#[derive(Debug)]
pub struct GenerateArguments {
    /// The numbers of vertices of the graphs to make.
    pub sizes: Vec<i32>,
    /// The file to write the graphs to.
    pub output_file: String,
}

/// What the program was asked to do.
#[derive(Debug)]
pub enum ConsoleArguments {
    /// Solve the graphs of some files.
    Solve(SolveArguments),
    /// Make graphs and write them to a file.
    Generate(GenerateArguments),
}

impl ConsoleArguments {
    /// The request to solve, from what the command line holds. The flag
    /// `naive` chooses the plain multiplication; without it the solver
    /// multiplies by seven products of half the size.
    pub fn solve(input_files: Vec<String>, output_file: Option<String>, naive: bool, verbose: bool) -> (args: Self)
        ensures
            args == ConsoleArguments::Solve(
                SolveArguments {
                    input_files,
                    output_file,
                    mul_method: if naive {
                        MultiplicationMethod::Naive
                    } else {
                        MultiplicationMethod::Strassen
                    },
                    verbose,
                },
            ),
    {
        let mul_method = if naive {
            MultiplicationMethod::Naive
        } else {
            MultiplicationMethod::Strassen
        };
        ConsoleArguments::Solve(SolveArguments { input_files, output_file, mul_method, verbose })
    }

    /// The request to make graphs of the given sizes.
    pub fn generate(sizes: Vec<i32>, output_file: String) -> (args: Self)
        ensures
            args == ConsoleArguments::Generate(GenerateArguments { sizes, output_file }),
    {
        ConsoleArguments::Generate(GenerateArguments { sizes, output_file })
    }
}

impl MultiplicationMethod {
    /// What the method answers for two matrices: the plain way asks that
    /// the first has as many columns as the second has rows, the two others
    /// ask for squares of one size as well.
    pub open spec fn product(self, a: Grid<i32>, b: Grid<i32>) -> Result<Grid<i32>, MultiplyError> {
        match self {
            MultiplicationMethod::Naive => naive_product(a, b),
            MultiplicationMethod::Strassen => square_product(a, b),
            MultiplicationMethod::Mixed => square_product(a, b),
        }
    }

    /// The product of `a` and `b` by this method, or why the method rejects
    /// the two.
    pub fn multiply(&self, a: &Matrix<i32>, b: &Matrix<i32>) -> (res: Result<Matrix<i32>, MultiplyError>)
        requires
            a@.cols() == b@.rows ==> b@.cols() * a@.rows <= usize::MAX,
        ensures
            res is Ok <==> self.product(a@, b@) is Ok,
            res is Ok ==> res->Ok_0@ == self.product(a@, b@)->Ok_0,
            res is Err ==> res->Err_0 == self.product(a@, b@)->Err_0,
    {
        match self {
            MultiplicationMethod::Naive => naive_mul(a, b),
            MultiplicationMethod::Strassen => strassen_mul(a, b),
            MultiplicationMethod::Mixed => mixed_mul(a, b),
        }
    }
}

} // verus!
