//! Graphs and answers as text: what a program writes to the screen and to
//! files, and what `data_parser` reads again.
use vstd::prelude::*;
use vstd::string::StringExecFns;
use crate::data_parser::tokens::{all_digits, decimal, emitted, is_digit, is_space, number_of, numbers_of, scan};
use crate::graph::graph::{views, Graph};
use crate::matrix::grid::Grid;
use crate::matrix::matrix::Matrix;

verus! {

/// The character that writes the digit `d`.
pub open spec fn digit(d: int) -> char
    recommends
        0 <= d <= 9,
{
    ((0x30 + d) as u8) as char
}

/// The digits that write `n` in base ten, without a zero before them.
pub open spec fn digits_of(n: nat) -> Seq<char>
    decreases n,
{
    if n < 10 {
        seq![digit(n as int)]
    } else {
        digits_of(n / 10).push(digit((n % 10) as int))
    }
}

/// The text that writes `v` in base ten: a `-` before a negative number,
/// and no sign before another.
pub open spec fn number_text(v: int) -> Seq<char> {
    if v < 0 {
        seq!['-'] + digits_of((-v) as nat)
    } else {
        digits_of(v as nat)
    }
}

/// The digits of a number are digits, one at least, and write the number.
pub proof fn lemma_digits_of(n: nat)
    ensures
        digits_of(n).len() > 0,
        all_digits(digits_of(n)),
        decimal(digits_of(n)) == n,
    decreases n,
{
    if n >= 10 {
        lemma_digits_of(n / 10);
        let s = digits_of(n);
        let d = digit((n % 10) as int);
        assert(s.drop_last() =~= digits_of(n / 10));
        assert(s.last() == d);
        assert(d as u32 == 0x30 + n % 10);
        assert forall|i: int| 0 <= i < s.len() implies is_digit(#[trigger] s[i]) by {
            if i < s.len() - 1 {
                assert(s[i] == digits_of(n / 10)[i]);
            }
        }
    } else {
        let s = digits_of(n);
        assert(s.len() == 1);
        assert(s[0] as u32 == 0x30 + n);
        assert(s.drop_last() =~= Seq::<char>::empty());
        assert(decimal(s.drop_last()) == 0);
    }
}

/// What is written can be read again: the text of a number of 32 bits is a
/// token that writes this number.
pub proof fn lemma_number_text_reads_back(v: i32)
    ensures
        number_of(number_text(v as int)) == Some(v),
{
    let t = number_text(v as int);
    if v < 0 {
        let d = digits_of((-v) as nat);
        lemma_digits_of((-v) as nat);
        assert(t[0] == '-');
        assert(t.skip(1) =~= d);
    } else {
        lemma_digits_of(v as nat);
        assert(is_digit(t[0]));
        assert(t[0] != '-' && t[0] != '+');
    }
}

/// Puts the character that writes the digit `d` after the text.
pub fn push_digit(text: &mut String, d: u8)
    requires
        d <= 9,
    ensures
        final(text)@ == old(text)@.push(digit(d as int)),
{
    proof {
        reveal_strlit("0");
        reveal_strlit("1");
        reveal_strlit("2");
        reveal_strlit("3");
        reveal_strlit("4");
        reveal_strlit("5");
        reveal_strlit("6");
        reveal_strlit("7");
        reveal_strlit("8");
        reveal_strlit("9");
    }
    if d == 0 {
        text.append("0");
    } else if d == 1 {
        text.append("1");
    } else if d == 2 {
        text.append("2");
    } else if d == 3 {
        text.append("3");
    } else if d == 4 {
        text.append("4");
    } else if d == 5 {
        text.append("5");
    } else if d == 6 {
        text.append("6");
    } else if d == 7 {
        text.append("7");
    } else if d == 8 {
        text.append("8");
    } else {
        text.append("9");
    }
    proof {
        assert(text@ =~= old(text)@.push(digit(d as int)));
    }
}

/// Puts a blank after the text.
fn push_blank(text: &mut String)
    ensures
        final(text)@ == old(text)@.push(' '),
{
    proof {
        reveal_strlit(" ");
    }
    text.append(" ");
    proof {
        assert(text@ =~= old(text)@.push(' '));
    }
}

/// Ends the line of the text.
fn push_line_end(text: &mut String)
    ensures
        final(text)@ == old(text)@.push('\n'),
{
    proof {
        reveal_strlit("\n");
    }
    text.append("\n");
    proof {
        assert(text@ =~= old(text)@.push('\n'));
    }
}

/// Puts a `-` after the text.
fn push_minus(text: &mut String)
    ensures
        final(text)@ == old(text)@.push('-'),
{
    proof {
        reveal_strlit("-");
    }
    text.append("-");
    proof {
        assert(text@ =~= old(text)@.push('-'));
    }
}

/// Puts the digits of `n` after the text.
pub fn push_digits(text: &mut String, n: u128)
    ensures
        final(text)@ == old(text)@ + digits_of(n as nat),
{
    let mut low: Vec<u8> = Vec::new();
    let mut rest: u128 = n;
    proof {
        assert(digits_of(n as nat) =~= digits_of(rest as nat) + Seq::new(
            0,
            |i: int| digit(low@[low@.len() - 1 - i] as int),
        ));
    }
    while rest >= 10
        invariant
            forall|i: int| 0 <= i < low@.len() ==> low@[i] <= 9,
            digits_of(n as nat) == digits_of(rest as nat) + Seq::new(
                low@.len(),
                |i: int| digit(low@[low@.len() - 1 - i] as int),
            ),
        decreases rest,
    {
        let d = (rest % 10) as u8;
        let ghost before = low@;
        let ghost whole = rest;
        low.push(d);
        rest = rest / 10;
        proof {
            assert(digits_of(whole as nat) == digits_of(rest as nat).push(digit(d as int)));
            assert(digits_of(whole as nat) + Seq::new(
                before.len(),
                |i: int| digit(before[before.len() - 1 - i] as int),
            ) =~= digits_of(rest as nat) + Seq::new(low@.len(), |i: int| digit(low@[low@.len() - 1 - i] as int)));
        }
    }
    push_digit(text, rest as u8);
    let ghost start = old(text)@;
    let mut i: usize = low.len();
    while i > 0
        invariant
            i <= low@.len(),
            rest < 10,
            forall|i: int| 0 <= i < low@.len() ==> low@[i] <= 9,
            digits_of(n as nat) == digits_of(rest as nat) + Seq::new(
                low@.len(),
                |i: int| digit(low@[low@.len() - 1 - i] as int),
            ),
            text@ == start + digits_of(rest as nat) + Seq::new(
                (low@.len() - i) as nat,
                |j: int| digit(low@[low@.len() - 1 - j] as int),
            ),
        decreases i,
    {
        i -= 1;
        push_digit(text, low[i]);
        proof {
            assert(text@ =~= start + digits_of(rest as nat) + Seq::new(
                (low@.len() - i) as nat,
                |j: int| digit(low@[low@.len() - 1 - j] as int),
            ));
        }
    }
    proof {
        assert(text@ =~= start + digits_of(n as nat));
    }
}

/// Puts the text of `v` after the text.
pub fn push_number(text: &mut String, v: i32)
    ensures
        final(text)@ == old(text)@ + number_text(v as int),
{
    if v < 0 {
        push_minus(text);
        push_digits(text, (-(v as i64)) as u128);
        proof {
            assert(text@ =~= old(text)@ + number_text(v as int));
        }
    } else {
        push_digits(text, v as u128);
    }
}

/// The text of `v` in two places at least: a number of one digit has a
/// blank before it.
pub open spec fn aligned_text(v: int) -> Seq<char> {
    if number_text(v).len() < 2 {
        seq![' '] + number_text(v)
    } else {
        number_text(v)
    }
}

/// The first `cols` elements of row `row`, each in two places at least and
/// with a blank after it.
pub open spec fn row_text(m: Grid<i32>, row: int, cols: nat) -> Seq<char>
    decreases cols,
{
    if cols == 0 {
        Seq::empty()
    } else {
        row_text(m, row, (cols - 1) as nat) + aligned_text(m.at(cols - 1, row) as int) + seq![' ']
    }
}

/// The first `rows` rows of a matrix, one line for each row.
pub open spec fn matrix_text(m: Grid<i32>, rows: nat) -> Seq<char>
    decreases rows,
{
    if rows == 0 {
        Seq::empty()
    } else {
        matrix_text(m, (rows - 1) as nat) + row_text(m, rows - 1, m.cols()) + seq!['\n']
    }
}

/// The first `k` of some graphs as the text of a file: the adjacency matrix
/// of each, and an empty line after each but the last of all.
pub open spec fn graphs_text(graphs: Seq<Grid<i32>>, k: nat) -> Seq<char>
    decreases k,
{
    if k == 0 {
        Seq::empty()
    } else {
        graphs_text(graphs, (k - 1) as nat) + matrix_text(graphs[k - 1], graphs[k - 1].rows) + (if k
            != graphs.len() {
            seq!['\n']
        } else {
            Seq::empty()
        })
    }
}

/// The first `k` vertices of an answer, counted from one, with a blank
/// between two.
pub open spec fn answer_text(answer: Seq<usize>, k: nat) -> Seq<char>
    decreases k,
{
    if k == 0 {
        Seq::empty()
    } else {
        answer_text(answer, (k - 1) as nat) + (if k == 1 {
            Seq::empty()
        } else {
            seq![' ']
        }) + digits_of((answer[k - 1] + 1) as nat)
    }
}

/// The first `k` of some answers as the text of a file: one line for each.
pub open spec fn answers_text(answers: Seq<Vec<usize>>, k: nat) -> Seq<char>
    decreases k,
{
    if k == 0 {
        Seq::empty()
    } else {
        answers_text(answers, (k - 1) as nat) + answer_text(answers[k - 1]@, answers[k - 1]@.len()) + seq!['\n']
    }
}

/// The matrix as text: one line for each row, and in it every element in
/// two places at least and with a blank after it.
pub fn format_matrix(matrix: &Matrix<i32>) -> (text: String)
    ensures
        text@ == matrix_text(matrix@, matrix@.rows),
{
    let mut text = String::new();
    push_matrix(&mut text, matrix);
    text
}

/// Puts the matrix as text after the text.
pub fn push_matrix(text: &mut String, matrix: &Matrix<i32>)
    ensures
        final(text)@ == old(text)@ + matrix_text(matrix@, matrix@.rows),
{
    let rows = matrix.rows();
    let cols = matrix.cols();
    let mut row: usize = 0;
    proof {
        assert(text@ =~= old(text)@ + matrix_text(matrix@, 0));
    }
    while row < rows
        invariant
            rows == matrix@.rows,
            cols == matrix@.cols(),
            row <= rows,
            text@ == old(text)@ + matrix_text(matrix@, row as nat),
        decreases rows - row,
    {
        let ghost line_start = text@;
        let mut col: usize = 0;
        proof {
            assert(text@ =~= line_start + row_text(matrix@, row as int, 0));
        }
        while col < cols
            invariant
                row < matrix@.rows,
                cols == matrix@.cols(),
                col <= cols,
                text@ == line_start + row_text(matrix@, row as int, col as nat),
            decreases cols - col,
        {
            let v = matrix.cell(col, row);
            let ghost before = text@;
            if 0 <= v && v < 10 {
                push_blank(text);
            }
            push_number(text, v);
            push_blank(text);
            proof {
                lemma_short_numbers(v);
                assert(text@ =~= before + aligned_text(v as int) + seq![' ']);
                assert(text@ =~= line_start + row_text(matrix@, row as int, (col + 1) as nat));
            }
            col += 1;
        }
        push_line_end(text);
        proof {
            assert(text@ =~= old(text)@ + matrix_text(matrix@, (row + 1) as nat));
        }
        row += 1;
    }
}

/// The numbers with a text of one place are those from zero to nine.
proof fn lemma_short_numbers(v: i32)
    ensures
        number_text(v as int).len() < 2 <==> 0 <= v < 10,
{
    if v < 0 {
        lemma_digits_of((-v) as nat);
    } else if v >= 10 {
        lemma_digits_of((v / 10) as nat);
    }
}

/// The graphs as the text of a file: the adjacency matrix of each, and an
/// empty line between two.
pub fn format_graphs(graphs: &Vec<Graph>) -> (text: String)
    ensures
        text@ == graphs_text(views(graphs@), graphs@.len()),
{
    let mut text = String::new();
    let mut k: usize = 0;
    proof {
        assert(text@ =~= graphs_text(views(graphs@), 0));
    }
    while k < graphs.len()
        invariant
            k <= graphs@.len(),
            text@ == graphs_text(views(graphs@), k as nat),
        decreases graphs@.len() - k,
    {
        let ghost before = text@;
        push_matrix(&mut text, &graphs[k].adj_matrix);
        if k != graphs.len() - 1 {
            push_line_end(&mut text);
        }
        proof {
            assert(views(graphs@)[k as int] == graphs@[k as int].adj_matrix@);
            assert(text@ =~= graphs_text(views(graphs@), (k + 1) as nat));
        }
        k += 1;
    }
    text
}

/// The answers as the text of a file: one line for each answer, with its
/// vertices counted from one and a blank between two.
pub fn format_results(results: &Vec<Vec<usize>>) -> (text: String)
    ensures
        text@ == answers_text(results@, results@.len()),
{
    let mut text = String::new();
    let mut k: usize = 0;
    proof {
        assert(text@ =~= answers_text(results@, 0));
    }
    while k < results.len()
        invariant
            k <= results@.len(),
            text@ == answers_text(results@, k as nat),
        decreases results@.len() - k,
    {
        let answer = &results[k];
        let ghost line_start = text@;
        let mut i: usize = 0;
        proof {
            assert(text@ =~= line_start + answer_text(answer@, 0));
        }
        while i < answer.len()
            invariant
                i <= answer@.len(),
                text@ == line_start + answer_text(answer@, i as nat),
            decreases answer@.len() - i,
        {
            let ghost before = text@;
            if i != 0 {
                push_blank(&mut text);
            }
            push_digits(&mut text, answer[i] as u128 + 1);
            proof {
                assert(text@ =~= line_start + answer_text(answer@, (i + 1) as nat));
            }
            i += 1;
        }
        push_line_end(&mut text);
        proof {
            assert(text@ =~= answers_text(results@, (k + 1) as nat));
        }
        k += 1;
    }
    text
}

/// Characters that are no white space, and then a blank, make one token:
/// the text after the blank is read as if it stood alone.
pub proof fn lemma_scan_token(token: Seq<char>, word: Seq<char>, rest: Seq<char>)
    requires
        forall|i: int| 0 <= i < word.len() ==> !is_space(#[trigger] word[i]),
    ensures
        scan(word + seq![' '] + rest, token) == emitted(token + word) + scan(rest, Seq::empty()),
    decreases word.len(),
{
    let s = word + seq![' '] + rest;
    if word.len() == 0 {
        assert(s[0] == ' ');
        assert(s.drop_first() =~= rest);
        assert(token + word =~= token);
    } else {
        assert(s[0] == word[0]);
        assert(s.drop_first() =~= word.drop_first() + seq![' '] + rest);
        lemma_scan_token(token.push(word[0]), word.drop_first(), rest);
        assert(token.push(word[0]) + word.drop_first() =~= token + word);
    }
}

/// A blank before a text changes nothing where no token has begun.
pub proof fn lemma_scan_blank(rest: Seq<char>)
    ensures
        scan(seq![' '] + rest, Seq::empty()) == scan(rest, Seq::empty()),
{
    let s = seq![' '] + rest;
    assert(s.drop_first() =~= rest);
    assert(emitted(Seq::<char>::empty()) =~= Seq::<i32>::empty());
    assert(Seq::<i32>::empty() + scan(rest, Seq::empty()) =~= scan(rest, Seq::empty()));
}

/// The text of a number holds no white space.
pub proof fn lemma_number_text_has_no_space(v: int)
    ensures
        forall|i: int| 0 <= i < number_text(v).len() ==> !is_space(#[trigger] number_text(v)[i]),
{
    let t = number_text(v);
    if v < 0 {
        lemma_digits_of((-v) as nat);
        assert forall|i: int| 0 <= i < t.len() implies !is_space(#[trigger] t[i]) by {
            if i > 0 {
                assert(t[i] == digits_of((-v) as nat)[i - 1]);
                assert(is_digit(digits_of((-v) as nat)[i - 1]));
            }
        }
    } else {
        lemma_digits_of(v as nat);
        assert forall|i: int| 0 <= i < t.len() implies !is_space(#[trigger] t[i]) by {
            assert(is_digit(t[i]));
        }
    }
}

/// What is written can be read again: the numbers of the text of a row are
/// the elements of the row.
pub proof fn lemma_row_text_reads_back(m: Grid<i32>, row: int, cols: nat)
    ensures
        numbers_of(row_text(m, row, cols)) == Seq::new(cols, |c: int| m.at(c, row)),
{
    lemma_row_text_before(m, row, cols, Seq::empty());
    assert(row_text(m, row, cols) + Seq::<char>::empty() =~= row_text(m, row, cols));
    assert(Seq::new(cols, |c: int| m.at(c, row)) + scan(Seq::<char>::empty(), Seq::empty()) =~= Seq::new(
        cols,
        |c: int| m.at(c, row),
    )) by {
        assert(emitted(Seq::<char>::empty()) =~= Seq::<i32>::empty());
    }
}

/// The numbers of a text that begins with the text of a row are the
/// elements of the row and then the numbers of what follows.
proof fn lemma_row_text_before(m: Grid<i32>, row: int, cols: nat, rest: Seq<char>)
    ensures
        scan(row_text(m, row, cols) + rest, Seq::empty()) == Seq::new(cols, |c: int| m.at(c, row)) + scan(
            rest,
            Seq::empty(),
        ),
    decreases cols,
{
    if cols == 0 {
        assert(row_text(m, row, cols) + rest =~= rest);
        assert(Seq::new(cols, |c: int| m.at(c, row)) + scan(rest, Seq::empty()) =~= scan(rest, Seq::empty()));
    } else {
        let v = m.at(cols - 1, row);
        let word = number_text(v as int);
        let tail = aligned_text(v as int) + seq![' '] + rest;
        assert(row_text(m, row, cols) + rest =~= row_text(m, row, (cols - 1) as nat) + tail);
        lemma_row_text_before(m, row, (cols - 1) as nat, tail);
        lemma_number_text_has_no_space(v as int);
        lemma_number_text_reads_back(v);
        lemma_scan_token(Seq::empty(), word, rest);
        assert(Seq::<char>::empty() + word =~= word);
        if word.len() < 2 {
            assert(tail =~= seq![' '] + (word + seq![' '] + rest));
            lemma_scan_blank(word + seq![' '] + rest);
        } else {
            assert(tail =~= word + seq![' '] + rest);
        }
        assert(scan(tail, Seq::empty()) == seq![v] + scan(rest, Seq::empty()));
        assert(Seq::new((cols - 1) as nat, |c: int| m.at(c, row)) + (seq![v] + scan(rest, Seq::empty()))
            =~= Seq::new(cols, |c: int| m.at(c, row)) + scan(rest, Seq::empty()));
    }
}

} // verus!
