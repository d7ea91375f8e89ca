use vstd::prelude::*;

verus! {

/// `x` lies in block `c` of a row of blocks `block_size` wide exactly when
/// `x / block_size == c`.
pub proof fn lemma_block_of(x: int, block_size: int, c: int)
    requires
        0 <= x,
        0 <= c,
        0 < block_size,
    ensures
        (c * block_size <= x < c * block_size + block_size) <==> x / block_size == c,
{
    if c * block_size <= x < c * block_size + block_size {
        vstd::arithmetic::div_mod::lemma_fundamental_div_mod_converse(
            x,
            block_size,
            c,
            x - c * block_size,
        );
    }
    if x / block_size == c {
        vstd::arithmetic::div_mod::lemma_fundamental_div_mod(x, block_size);
        assert(c * block_size == block_size * c) by (nonlinear_arith);
    }
}

/// A point below `n` blocks lies in one of those blocks.
pub proof fn lemma_block_below(x: int, block_size: int, n: int)
    requires
        0 <= x < n * block_size,
        0 < block_size,
    ensures
        x / block_size < n,
{
    vstd::arithmetic::div_mod::lemma_fundamental_div_mod(x, block_size);
    assert(x / block_size < n) by (nonlinear_arith)
        requires
            x == block_size * (x / block_size) + x % block_size,
            0 <= x % block_size,
            x < n * block_size,
            0 < block_size,
    ;
}

/// Probing the maze at pixel `(x, y)` only reads a cell that exists: inside
/// the extent given by the first row and the number of rows, the row under
/// `y` reaches the column under `x`.
pub open spec fn probe_reads_existing_cell(maze: Seq<Vec<char>>, block_size: int, x: int, y: int) -> bool {
    x < maze[0]@.len() * block_size && y < maze.len() * block_size ==> x / block_size
        < maze[y / block_size]@.len()
}

/// Pixel `(x, y)` is blocked: it lies outside the maze's extent (the first
/// row's width and the number of rows, in blocks of `block_size` pixels) or
/// on a cell other than `' '`.
pub open spec fn colliding(maze: Seq<Vec<char>>, block_size: int, x: int, y: int) -> bool {
    x >= maze[0]@.len() * block_size || y >= maze.len() * block_size
        || maze[y / block_size]@[x / block_size] != ' '
}

/// Whether pixel `(x, y)` of a maze drawn in blocks of `block_size` pixels
/// is blocked, as `colliding` states.
pub fn is_colliding(x: usize, y: usize, maze: &Vec<Vec<char>>, block_size: usize) -> (c: bool)
    requires
        maze@.len() > 0,
        maze@[0]@.len() * block_size <= usize::MAX,
        maze@.len() * block_size <= usize::MAX,
        probe_reads_existing_cell(maze@, block_size as int, x as int, y as int),
    ensures
        c == colliding(maze@, block_size as int, x as int, y as int),
{
    if x >= maze[0].len() * block_size || y >= maze.len() * block_size {
        return true;
    }
    let i = y / block_size;
    let j = x / block_size;
    proof {
        lemma_block_below(y as int, block_size as int, maze@.len() as int);
    }
    maze[i][j] != ' '
}

/// Leaving the maze's extent always counts as a collision.
pub proof fn lemma_outside_is_colliding(maze: Seq<Vec<char>>, block_size: int, x: int, y: int)
    requires
        x >= maze[0]@.len() * block_size || y >= maze.len() * block_size,
    ensures
        colliding(maze, block_size, x, y),
{
}

/// The number of characters before the first `'\n'` of `s` (all of them
/// when there is none).
pub open spec fn line_len(s: Seq<char>) -> nat
    decreases s.len(),
{
    if s.len() == 0 || s[0] == '\n' {
        0
    } else {
        1 + line_len(s.drop_first())
    }
}

/// A line without the `'\r'` that came just before its `'\n'`, if it had
/// both; a line not ended by `'\n'` keeps a last `'\r'`.
pub open spec fn strip_cr(line: Seq<char>, ended: bool) -> Seq<char> {
    if ended && line.len() > 0 && line.last() == '\r' {
        line.drop_last()
    } else {
        line
    }
}

/// The lines of a text: split at each `'\n'`, a `"\r\n"` ending counting
/// as one line ending, with no empty line after a final `'\n'`.
pub open spec fn split_lines(s: Seq<char>) -> Seq<Seq<char>>
    decreases s.len(),
{
    if s.len() == 0 {
        seq![]
    } else {
        let n = line_len(s);
        if n < s.len() {
            seq![strip_cr(s.take(n as int), true)] + split_lines(s.skip((n + 1) as int))
        } else {
            seq![strip_cr(s.take(n as int), false)]
        }
    }
}

/// The first line of `s` is `k` long when its first `k` characters are not
/// `'\n'` and the next one is, or there is none.
pub proof fn lemma_line_len(s: Seq<char>, k: int)
    requires
        0 <= k <= s.len(),
        forall|j: int| 0 <= j < k ==> s[j] != '\n',
        k == s.len() || s[k] == '\n',
    ensures
        line_len(s) == k,
    decreases k,
{
    if k > 0 {
        assert(s[0] != '\n');
        let t = s.drop_first();
        assert forall|j: int| 0 <= j < k - 1 implies t[j] != '\n' by {
            assert(t[j] == s[j + 1]);
        }
        if k < s.len() {
            assert(t[k - 1] == s[k]);
        }
        lemma_line_len(t, k - 1);
    }
}

/// The first line of `s` holds no `'\n'` and is followed by one, unless it
/// runs to the end of `s`.
pub proof fn lemma_line_len_bounds(s: Seq<char>)
    ensures
        line_len(s) <= s.len(),
        forall|j: int| 0 <= j < line_len(s) ==> s[j] != '\n',
        line_len(s) < s.len() ==> s[line_len(s) as int] == '\n',
    decreases s.len(),
{
    if s.len() > 0 && s[0] != '\n' {
        let t = s.drop_first();
        lemma_line_len_bounds(t);
        assert forall|j: int| 0 <= j < line_len(s) implies s[j] != '\n' by {
            if j > 0 {
                assert(s[j] == t[j - 1]);
            }
        }
        if line_len(s) < s.len() {
            assert(s[line_len(s) as int] == t[line_len(t) as int]);
        }
    }
}

/// Rows written out again, each followed by its line ending.
pub open spec fn join_lines(rows: Seq<Seq<char>>, ends: Seq<Seq<char>>) -> Seq<char>
    decreases rows.len(),
{
    if rows.len() == 0 || ends.len() == 0 {
        seq![]
    } else {
        rows[0] + ends[0] + join_lines(rows.drop_first(), ends.drop_first())
    }
}

/// The lines of a text are exactly its characters cut at the line endings:
/// writing each line out again followed by its ending gives back the text.
/// Every ending is `"\n"` or `"\r\n"`, except that the last line may have
/// none; no line holds a `'\n'`; a line ended by a bare `"\n"` does not end
/// in `'\r'` (that `'\r'` belongs to the ending); and a line without an
/// ending is not empty. Returned are the endings, one per line.
pub proof fn lemma_lines_rebuild_text(text: Seq<char>) -> (ends: Seq<Seq<char>>)
    ensures
        ends.len() == split_lines(text).len(),
        join_lines(split_lines(text), ends) == text,
        forall|i: int|
            0 <= i < ends.len() ==> #[trigger] ends[i] == seq!['\n'] || ends[i] == seq!['\r', '\n']
                || (i == ends.len() - 1 && ends[i] == Seq::<char>::empty()),
        forall|i: int, j: int|
            0 <= i < split_lines(text).len() && 0 <= j < split_lines(text)[i].len() ==> #[trigger] split_lines(
                text,
            )[i][j] != '\n',
        forall|i: int|
            0 <= i < ends.len() && #[trigger] ends[i] == seq!['\n'] ==> !(split_lines(text)[i].len() > 0
                && split_lines(text)[i].last() == '\r'),
        forall|i: int|
            0 <= i < ends.len() && #[trigger] ends[i] == Seq::<char>::empty() ==> split_lines(text)[i].len()
                > 0,
    decreases text.len(),
{
    let rows = split_lines(text);
    if text.len() == 0 {
        let ends = Seq::<Seq<char>>::empty();
        assert(join_lines(rows, ends) =~= text);
        ends
    } else {
        let n = line_len(text);
        lemma_line_len_bounds(text);
        let head = text.take(n as int);
        if n < text.len() {
            let rest = text.skip((n + 1) as int);
            let rest_ends = lemma_lines_rebuild_text(rest);
            let rest_rows = split_lines(rest);
            let row0 = strip_cr(head, true);
            let end0 = if head.len() > 0 && head.last() == '\r' {
                seq!['\r', '\n']
            } else {
                seq!['\n']
            };
            let ends = seq![end0] + rest_ends;
            assert(rows == seq![row0] + rest_rows);
            assert(rows.drop_first() =~= rest_rows);
            assert(ends.drop_first() =~= rest_ends);
            assert(row0 + end0 =~= text.take((n + 1) as int));
            assert(text =~= text.take((n + 1) as int) + rest);
            assert(join_lines(rows, ends) == row0 + end0 + join_lines(rest_rows, rest_ends));
            assert forall|i: int|
                0 <= i < ends.len() implies #[trigger] ends[i] == seq!['\n'] || ends[i] == seq![
                '\r',
                '\n',
            ] || (i == ends.len() - 1 && ends[i] == Seq::<char>::empty()) by {
                if i > 0 {
                    assert(ends[i] == rest_ends[i - 1]);
                }
            }
            assert forall|i: int, j: int|
                0 <= i < rows.len() && 0 <= j < rows[i].len() implies #[trigger] rows[i][j] != '\n' by {
                if i > 0 {
                    assert(rows[i] == rest_rows[i - 1]);
                } else {
                    assert(rows[0][j] == text[j]);
                }
            }
            assert forall|i: int|
                0 <= i < ends.len() && #[trigger] ends[i] == seq!['\n'] implies !(rows[i].len() > 0
                && rows[i].last() == '\r') by {
                if i > 0 {
                    assert(ends[i] == rest_ends[i - 1]);
                    assert(rows[i] == rest_rows[i - 1]);
                } else {
                    assert(end0 == seq!['\n']);
                    if head.len() > 0 && head.last() == '\r' {
                        assert(end0[0] == '\r');
                    }
                }
            }
            assert forall|i: int|
                0 <= i < ends.len() && #[trigger] ends[i] == Seq::<char>::empty() implies rows[i].len()
                > 0 by {
                if i > 0 {
                    assert(ends[i] == rest_ends[i - 1]);
                    assert(rows[i] == rest_rows[i - 1]);
                } else {
                    assert(end0.len() > 0);
                }
            }
            ends
        } else {
            let ends = seq![Seq::<char>::empty()];
            assert(head =~= text);
            assert(rows == seq![text]);
            assert(rows.drop_first() =~= Seq::<Seq<char>>::empty());
            assert(join_lines(rows.drop_first(), ends.drop_first()) =~= Seq::<char>::empty());
            assert(join_lines(rows, ends) =~= text);
            assert forall|i: int, j: int|
                0 <= i < rows.len() && 0 <= j < rows[i].len() implies #[trigger] rows[i][j] != '\n' by {
                assert(rows[0][j] == text[j]);
            }
            ends
        }
    }
}

/// The cells of each row of a maze.
pub open spec fn rows_of(maze: Seq<Vec<char>>) -> Seq<Seq<char>> {
    maze.map_values(|r: Vec<char>| r@)
}

/// The maze in a text: one row per line (as `split_lines` cuts it), one cell
/// per character.
pub fn parse_maze(text: &Vec<char>) -> (maze: Vec<Vec<char>>)
    ensures
        maze@.len() == split_lines(text@).len(),
        forall|i: int| 0 <= i < maze@.len() ==> #[trigger] maze@[i]@ == split_lines(text@)[i],
        exists|ends: Seq<Seq<char>>|
            {
                &&& ends.len() == maze@.len()
                &&& #[trigger] join_lines(rows_of(maze@), ends) == text@
                &&& forall|i: int|
                    0 <= i < ends.len() ==> #[trigger] ends[i] == seq!['\n'] || ends[i] == seq![
                        '\r',
                        '\n',
                    ] || (i == ends.len() - 1 && ends[i] == Seq::<char>::empty())
            },
{
    let n = text.len();
    let mut maze: Vec<Vec<char>> = Vec::new();
    let mut line: Vec<char> = Vec::new();
    let mut start: usize = 0;
    let mut i: usize = 0;
    assert(text@.skip(0) =~= text@);
    assert(maze@.map_values(|r: Vec<char>| r@) + split_lines(text@) =~= split_lines(text@));
    while i < n
        invariant
            n == text@.len(),
            0 <= start <= i <= n,
            line@ == text@.subrange(start as int, i as int),
            forall|j: int| start <= j < i ==> text@[j] != '\n',
            maze@.map_values(|r: Vec<char>| r@) + split_lines(text@.skip(start as int)) == split_lines(
                text@,
            ),
        decreases n - i,
    {
        if text[i] == '\n' {
            let ghost u = text@.skip(start as int);
            proof {
                let k = i - start;
                assert forall|j: int| 0 <= j < k implies u[j] != '\n' by {
                    assert(u[j] == text@[start + j]);
                }
                assert(u[k] == text@[i as int]);
                lemma_line_len(u, k);
                assert(u.take(k) =~= line@);
                assert(u.skip(k + 1) =~= text@.skip(i + 1));
            }
            let ghost prev = maze@.map_values(|r: Vec<char>| r@);
            let len = line.len();
            if len > 0 && line[len - 1] == '\r' {
                line.pop();
            }
            maze.push(line);
            assert(maze@.map_values(|r: Vec<char>| r@) =~= prev.push(strip_cr(u.take(i - start), true)));
            line = Vec::new();
            start = i + 1;
            assert(line@ =~= text@.subrange(start as int, (i + 1) as int));
        } else {
            line.push(text[i]);
            assert(line@ =~= text@.subrange(start as int, (i + 1) as int));
        }
        i = i + 1;
    }
    let ghost u = text@.skip(start as int);
    let ghost prev = maze@.map_values(|r: Vec<char>| r@);
    if start < n {
        proof {
            let k = n - start;
            assert forall|j: int| 0 <= j < k implies u[j] != '\n' by {
                assert(u[j] == text@[start + j]);
            }
            lemma_line_len(u, k);
            assert(u.take(k) =~= line@);
        }
        maze.push(line);
        assert(maze@.map_values(|r: Vec<char>| r@) =~= prev.push(split_lines(u)[0]));
    } else {
        assert(u.len() == 0);
    }
    assert(maze@.map_values(|r: Vec<char>| r@) =~= split_lines(text@));
    assert forall|i: int| 0 <= i < maze@.len() implies #[trigger] maze@[i]@ == split_lines(text@)[i] by {
        assert(maze@.map_values(|r: Vec<char>| r@)[i] == maze@[i]@);
    }
    proof {
        let ends = lemma_lines_rebuild_text(text@);
        assert(rows_of(maze@) =~= maze@.map_values(|r: Vec<char>| r@));
        assert(join_lines(rows_of(maze@), ends) == text@);
    }
    maze
}

} // verus!
