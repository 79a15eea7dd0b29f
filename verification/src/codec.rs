//! Reading a program from its text: rows on lines, cells between single
//! spaces, each cell `_` or an instruction with its fields in brackets.
use crate::grid::{lemma_from_rows, rectangular, rows_of, ConstGrid, DynGrid, Grid, GridView};
use crate::instruction::{Block, Direction, Index, Value};
use crate::numeral::{chars_of, parse_u64, parse_value};
use vstd::prelude::*;

verus! {

/// Why a text is no program.
#[derive(Clone, Copy, Debug, PartialEq, Eq, Structural)]
pub enum DecodeError {
    /// The text has no line.
    EmptyProgram,
    /// A cell of no characters: an empty line, or a space too many.
    EmptyToken,
    /// A keyword that names no instruction.
    UnknownInstruction,
    /// An instruction with fewer or more fields than it takes.
    FieldCount,
    /// A field that should name a direction and does not.
    BadDirection,
    /// A field that should be a number and is none, or one too large.
    BadNumber,
    /// A line with another number of cells than the first.
    RaggedRows,
    /// A program of another size than the grid it is read into.
    Capacity,
}

/// The pieces of `s` between the characters `a` and `b`: one more than there
/// are such characters in `s`.
pub open spec fn split(s: Seq<char>, a: char, b: char) -> Seq<Seq<char>>
    decreases s.len(),
{
    if s.len() == 0 {
        seq![Seq::empty()]
    } else {
        let before = split(s.drop_last(), a, b);
        if s.last() == a || s.last() == b {
            before.push(Seq::empty())
        } else {
            before.drop_last().push(before.last().push(s.last()))
        }
    }
}

/// `line` without the carriage return that it may end with.
pub open spec fn strip_return(line: Seq<char>) -> Seq<char> {
    if line.len() > 0 && line.last() == '\r' {
        line.drop_last()
    } else {
        line
    }
}

/// The lines of `text`. A line ends with a line feed, or a carriage return
/// and a line feed; the last line may go without. A text that ends with a
/// line ending has no further, empty line after it.
pub open spec fn lines(text: Seq<char>) -> Seq<Seq<char>> {
    let pieces = split(text, '\n', '\n');
    let ended = pieces.drop_last().map_values(|line: Seq<char>| strip_return(line));
    if pieces.last().len() == 0 {
        ended
    } else {
        ended.push(pieces.last())
    }
}

/// The keyword and the fields of a token: its pieces between `(` and `,`,
/// the last field without the `)` that it may end with.
pub open spec fn fields(token: Seq<char>) -> Seq<Seq<char>> {
    let pieces = split(token, '(', ',');
    let last = pieces.last();
    if pieces.len() > 1 && last.len() > 0 && last.last() == ')' {
        pieces.drop_last().push(last.drop_last())
    } else {
        pieces
    }
}

/// Whether `word` stands for `name`: it is the name, or the first character
/// of a name of more than one.
pub open spec fn names(word: Seq<char>, name: Seq<char>) -> bool {
    word == name || (name.len() > 1 && word == name.take(1))
}

/// The results of `f` on `items`, or the error on the first item that has
/// one.
pub open spec fn collect<A, B>(items: Seq<A>, f: spec_fn(A) -> Result<B, DecodeError>) -> Result<
    Seq<B>,
    DecodeError,
>
    decreases items.len(),
{
    if items.len() == 0 {
        Ok(Seq::empty())
    } else {
        match collect(items.drop_last(), f) {
            Ok(done) => match f(items.last()) {
                Ok(b) => Ok(done.push(b)),
                Err(e) => Err(e),
            },
            Err(e) => Err(e),
        }
    }
}

/// A value that can be read from a piece of program text.
pub trait Decodable: Sized {
    /// What `text` denotes.
    spec fn decoded(text: Seq<char>) -> Result<Self, DecodeError>;

    /// Reads `text` as a value of this type.
    fn decode(text: &[char]) -> (r: Result<Self, DecodeError>)
        ensures
            r == Self::decoded(text@),
    ;
}

impl Decodable for Value {
    /// An unsigned 64-bit numeral.
    open spec fn decoded(text: Seq<char>) -> Result<Self, DecodeError> {
        match parse_u64(text) {
            Some(v) => Ok(v),
            None => Err(DecodeError::BadNumber),
        }
    }

    fn decode(text: &[char]) -> (r: Result<Self, DecodeError>) {
        match parse_value(text) {
            Some(v) => Ok(v),
            None => Err(DecodeError::BadNumber),
        }
    }
}

impl Decodable for Index {
    /// An unsigned numeral that an index can hold.
    open spec fn decoded(text: Seq<char>) -> Result<Self, DecodeError> {
        match parse_u64(text) {
            Some(v) => if v <= usize::MAX {
                Ok(v as usize)
            } else {
                Err(DecodeError::BadNumber)
            },
            None => Err(DecodeError::BadNumber),
        }
    }

    fn decode(text: &[char]) -> (r: Result<Self, DecodeError>) {
        match parse_value(text) {
            Some(v) => if v <= usize::MAX as u64 {
                Ok(v as usize)
            } else {
                Err(DecodeError::BadNumber)
            },
            None => Err(DecodeError::BadNumber),
        }
    }
}

impl Decodable for Direction {
    /// `Up`, `Down`, `Left` or `Right`, or the first letter of one.
    open spec fn decoded(text: Seq<char>) -> Result<Self, DecodeError> {
        if names(text, "Up"@) {
            Ok(Direction::Up)
        } else if names(text, "Down"@) {
            Ok(Direction::Down)
        } else if names(text, "Left"@) {
            Ok(Direction::Left)
        } else if names(text, "Right"@) {
            Ok(Direction::Right)
        } else {
            Err(DecodeError::BadDirection)
        }
    }

    fn decode(text: &[char]) -> (r: Result<Self, DecodeError>) {
        if stands_for(text, "Up") {
            Ok(Direction::Up)
        } else if stands_for(text, "Down") {
            Ok(Direction::Down)
        } else if stands_for(text, "Left") {
            Ok(Direction::Left)
        } else if stands_for(text, "Right") {
            Ok(Direction::Right)
        } else {
            Err(DecodeError::BadDirection)
        }
    }
}

/// An instruction without fields, given the fields `args` that its token has.
pub open spec fn plain(args: Seq<Seq<char>>, b: Block) -> Result<Block, DecodeError> {
    if args.len() == 0 {
        Ok(b)
    } else {
        Err(DecodeError::FieldCount)
    }
}

/// The one field `args` read as a `T`.
pub open spec fn one<T: Decodable>(args: Seq<Seq<char>>) -> Result<T, DecodeError> {
    if args.len() == 1 {
        T::decoded(args[0])
    } else {
        Err(DecodeError::FieldCount)
    }
}

/// The two fields `args` read as directions.
pub open spec fn two(args: Seq<Seq<char>>) -> Result<(Direction, Direction), DecodeError> {
    if args.len() == 2 {
        match Direction::decoded(args[0]) {
            Ok(first) => match Direction::decoded(args[1]) {
                Ok(second) => Ok((first, second)),
                Err(e) => Err(e),
            },
            Err(e) => Err(e),
        }
    } else {
        Err(DecodeError::FieldCount)
    }
}

/// `make` of what was read, or the error of the reading.
pub open spec fn build<T>(read: Result<T, DecodeError>, make: spec_fn(T) -> Block) -> Result<
    Block,
    DecodeError,
> {
    match read {
        Ok(t) => Ok(make(t)),
        Err(e) => Err(e),
    }
}

impl Decodable for Block {
    /// The instruction that a token denotes. Its keyword is the name of an
    /// instruction or the first letter of one; a letter that several names
    /// begin with stands for the first of them in the order below. The fields
    /// must be as many as the instruction takes.
    open spec fn decoded(text: Seq<char>) -> Result<Self, DecodeError> {
        let head = fields(text)[0];
        let args = fields(text).skip(1);
        if names(head, "Start"@) {
            build(one::<Direction>(args), |d: Direction| Block::Start(d))
        } else if names(head, "Redirect"@) {
            build(one::<Direction>(args), |d: Direction| Block::Redirect(d))
        } else if names(head, "Store"@) {
            plain(args, Block::Store)
        } else if names(head, "Load"@) {
            plain(args, Block::Load)
        } else if names(head, "Swap"@) {
            plain(args, Block::Swap)
        } else if names(head, "MoveRight"@) {
            build(one::<Index>(args), |n: Index| Block::MoveRight(n))
        } else if names(head, "MoveLeft"@) {
            build(one::<Index>(args), |n: Index| Block::MoveLeft(n))
        } else if names(head, "Goto"@) {
            build(one::<Index>(args), |n: Index| Block::Goto(n))
        } else if names(head, "Set"@) {
            build(one::<Value>(args), |v: Value| Block::SetValue(v))
        } else if names(head, "Save"@) {
            build(one::<Value>(args), |v: Value| Block::Save(v))
        } else if names(head, "Increment"@) {
            build(one::<Value>(args), |v: Value| Block::Increment(v))
        } else if names(head, "Decrement"@) {
            build(one::<Value>(args), |v: Value| Block::Decrement(v))
        } else if names(head, "OpAdd"@) {
            plain(args, Block::OpAdd)
        } else if names(head, "OpSub"@) {
            plain(args, Block::OpSub)
        } else if names(head, "OpMul"@) {
            plain(args, Block::OpMul)
        } else if names(head, "OpDiv"@) {
            plain(args, Block::OpDiv)
        } else if names(head, "CompLarger"@) {
            plain(args, Block::CompLarger)
        } else if names(head, "CompSmaller"@) {
            plain(args, Block::CompSmaller)
        } else if names(head, "CompEqual"@) {
            plain(args, Block::CompEqual)
        } else if names(head, "Conditional"@) {
            build(two(args), |d: (Direction, Direction)| Block::Conditional(d.0, d.1))
        } else if names(head, "Display"@) {
            plain(args, Block::Display)
        } else if names(head, "Print"@) {
            plain(args, Block::Print)
        } else if names(head, "Break"@) {
            plain(args, Block::Break)
        } else if names(head, "Input"@) {
            plain(args, Block::Input)
        } else if names(head, "End"@) {
            plain(args, Block::End)
        } else {
            Err(DecodeError::UnknownInstruction)
        }
    }

    fn decode(text: &[char]) -> (r: Result<Self, DecodeError>) {
        let pieces = split_fields(text);
        let head = pieces[0].as_slice();
        if stands_for(head, "Start") {
            match read_one::<Direction>(&pieces) {
                Ok(d) => Ok(Block::Start(d)),
                Err(e) => Err(e),
            }
        } else if stands_for(head, "Redirect") {
            match read_one::<Direction>(&pieces) {
                Ok(d) => Ok(Block::Redirect(d)),
                Err(e) => Err(e),
            }
        } else if stands_for(head, "Store") {
            read_plain(&pieces, Block::Store)
        } else if stands_for(head, "Load") {
            read_plain(&pieces, Block::Load)
        } else if stands_for(head, "Swap") {
            read_plain(&pieces, Block::Swap)
        } else if stands_for(head, "MoveRight") {
            match read_one::<Index>(&pieces) {
                Ok(n) => Ok(Block::MoveRight(n)),
                Err(e) => Err(e),
            }
        } else if stands_for(head, "MoveLeft") {
            match read_one::<Index>(&pieces) {
                Ok(n) => Ok(Block::MoveLeft(n)),
                Err(e) => Err(e),
            }
        } else if stands_for(head, "Goto") {
            match read_one::<Index>(&pieces) {
                Ok(n) => Ok(Block::Goto(n)),
                Err(e) => Err(e),
            }
        } else if stands_for(head, "Set") {
            match read_one::<Value>(&pieces) {
                Ok(v) => Ok(Block::SetValue(v)),
                Err(e) => Err(e),
            }
        } else if stands_for(head, "Save") {
            match read_one::<Value>(&pieces) {
                Ok(v) => Ok(Block::Save(v)),
                Err(e) => Err(e),
            }
        } else if stands_for(head, "Increment") {
            match read_one::<Value>(&pieces) {
                Ok(v) => Ok(Block::Increment(v)),
                Err(e) => Err(e),
            }
        } else if stands_for(head, "Decrement") {
            match read_one::<Value>(&pieces) {
                Ok(v) => Ok(Block::Decrement(v)),
                Err(e) => Err(e),
            }
        } else if stands_for(head, "OpAdd") {
            read_plain(&pieces, Block::OpAdd)
        } else if stands_for(head, "OpSub") {
            read_plain(&pieces, Block::OpSub)
        } else if stands_for(head, "OpMul") {
            read_plain(&pieces, Block::OpMul)
        } else if stands_for(head, "OpDiv") {
            read_plain(&pieces, Block::OpDiv)
        } else if stands_for(head, "CompLarger") {
            read_plain(&pieces, Block::CompLarger)
        } else if stands_for(head, "CompSmaller") {
            read_plain(&pieces, Block::CompSmaller)
        } else if stands_for(head, "CompEqual") {
            read_plain(&pieces, Block::CompEqual)
        } else if stands_for(head, "Conditional") {
            match read_two(&pieces) {
                Ok(d) => Ok(Block::Conditional(d.0, d.1)),
                Err(e) => Err(e),
            }
        } else if stands_for(head, "Display") {
            read_plain(&pieces, Block::Display)
        } else if stands_for(head, "Print") {
            read_plain(&pieces, Block::Print)
        } else if stands_for(head, "Break") {
            read_plain(&pieces, Block::Break)
        } else if stands_for(head, "Input") {
            read_plain(&pieces, Block::Input)
        } else if stands_for(head, "End") {
            read_plain(&pieces, Block::End)
        } else {
            Err(DecodeError::UnknownInstruction)
        }
    }
}

/// What a token denotes as a cell: `_` is the empty cell, anything else an
/// instruction.
pub open spec fn decoded_cell(token: Seq<char>) -> Result<Option<Block>, DecodeError> {
    if token == seq!['_'] {
        Ok(None)
    } else if token.len() == 0 {
        Err(DecodeError::EmptyToken)
    } else {
        match Block::decoded(token) {
            Ok(b) => Ok(Some(b)),
            Err(e) => Err(e),
        }
    }
}

/// The cells of a line: what its tokens denote, the tokens being its pieces
/// between single spaces.
pub open spec fn decoded_row(line: Seq<char>) -> Result<Seq<Option<Block>>, DecodeError> {
    collect(split(line, ' ', ' '), |token: Seq<char>| decoded_cell(token))
}

/// The rows of a text, line by line. The first cell that is in error, in
/// reading order, decides the error.
pub open spec fn decoded_rows(text: Seq<char>) -> Result<Seq<Seq<Option<Block>>>, DecodeError> {
    collect(lines(text), |line: Seq<char>| decoded_row(line))
}

/// The program that `text` denotes: as wide as its first line has cells, as
/// high as it has lines. A text without lines is in error, and so is one
/// whose lines differ in their number of cells, once every cell has been
/// read.
pub open spec fn decoded_grid(text: Seq<char>) -> Result<GridView<Block>, DecodeError> {
    if lines(text).len() == 0 {
        Err(DecodeError::EmptyProgram)
    } else {
        match decoded_rows(text) {
            Ok(rows) => if rectangular(rows) {
                Ok(GridView::from_rows(rows))
            } else {
                Err(DecodeError::RaggedRows)
            },
            Err(e) => Err(e),
        }
    }
}

/// The texts held by vectors, as sequences.
pub open spec fn texts(pieces: Seq<Vec<char>>) -> Seq<Seq<char>> {
    pieces.map_values(|piece: Vec<char>| piece@)
}

/// A split has at least one piece.
pub proof fn lemma_split_has_piece(s: Seq<char>, a: char, b: char)
    ensures
        split(s, a, b).len() >= 1,
    decreases s.len(),
{
    if s.len() > 0 {
        lemma_split_has_piece(s.drop_last(), a, b);
    }
}

/// An error on a prefix of the items is the error on all of them.
pub proof fn lemma_collect_fails<A, B>(
    items: Seq<A>,
    f: spec_fn(A) -> Result<B, DecodeError>,
    k: int,
)
    requires
        0 <= k <= items.len(),
        collect(items.take(k), f) is Err,
    ensures
        collect(items, f) == Err::<Seq<B>, DecodeError>(collect(items.take(k), f)->Err_0),
    decreases items.len(),
{
    if k == items.len() {
        assert(items.take(k) =~= items);
    } else {
        assert(items.drop_last().take(k) =~= items.take(k));
        lemma_collect_fails(items.drop_last(), f, k);
    }
}

/// Where every item has a result, there is one result for each item, in the
/// order of the items.
pub proof fn lemma_collect_succeeds<A, B>(items: Seq<A>, f: spec_fn(A) -> Result<B, DecodeError>)
    ensures
        collect(items, f) matches Ok(out) ==> out.len() == items.len() && forall|i: int|
            0 <= i < items.len() ==> f(items[i]) == Ok::<B, DecodeError>(#[trigger] out[i]),
    decreases items.len(),
{
    if items.len() > 0 {
        lemma_collect_succeeds(items.drop_last(), f);
    }
}

/// The program read from a text is as high as the text has lines and as wide
/// as its first line has tokens, and each of its cells is what the token in
/// its place denotes.
pub proof fn lemma_decoded_grid(text: Seq<char>)
    requires
        decoded_grid(text) is Ok,
    ensures
        ({
            let g = decoded_grid(text)->Ok_0;
            &&& g.wf()
            &&& g.height == lines(text).len()
            &&& g.width == split(lines(text)[0], ' ', ' ').len()
            &&& forall|x: int, y: int|
                0 <= x < g.width && 0 <= y < g.height ==> decoded_cell(
                    split(lines(text)[y], ' ', ' ')[x],
                ) == Ok::<Option<Block>, DecodeError>(#[trigger] g.at(x, y))
        }),
{
    let g = decoded_grid(text)->Ok_0;
    let rows = decoded_rows(text)->Ok_0;
    lemma_collect_succeeds(lines(text), |line: Seq<char>| decoded_row(line));
    lemma_from_rows(rows);
    assert forall|x: int, y: int| 0 <= x < g.width && 0 <= y < g.height implies decoded_cell(
        split(lines(text)[y], ' ', ' ')[x],
    ) == Ok::<Option<Block>, DecodeError>(#[trigger] g.at(x, y)) by {
        lemma_collect_succeeds(
            split(lines(text)[y], ' ', ' '),
            |token: Seq<char>| decoded_cell(token),
        );
    }
    lemma_collect_succeeds(
        split(lines(text)[0], ' ', ' '),
        |token: Seq<char>| decoded_cell(token),
    );
}

/// Whether `word` is `name` or, where `name` has more than one character,
/// its first.
fn stands_for(word: &[char], name: &str) -> (r: bool)
    ensures
        r == names(word@, name@),
{
    let full = chars_of(name);
    if word.len() == 1 && full.len() > 1 && word[0] == full[0] {
        assert(word@ =~= name@.take(1));
        return true;
    }
    if word.len() != full.len() {
        return false;
    }
    let mut i: usize = 0;
    while i < word.len()
        invariant
            full@ == name@,
            word@.len() == full@.len(),
            i <= word.len(),
            forall|j: int| 0 <= j < i ==> word@[j] == full@[j],
            !(word@.len() == 1 && full@.len() > 1 && word@[0] == full@[0]),
        decreases word.len() - i,
    {
        if word[i] != full[i] {
            return false;
        }
        i = i + 1;
    }
    assert(word@ =~= name@);
    true
}

/// The pieces of `s` between the characters `a` and `b`.
pub fn split_on(s: &[char], a: char, b: char) -> (pieces: Vec<Vec<char>>)
    ensures
        texts(pieces@) == split(s@, a, b),
        pieces.len() >= 1,
{
    let mut pieces: Vec<Vec<char>> = Vec::new();
    let mut current: Vec<char> = Vec::new();
    let mut i: usize = 0;
    while i < s.len()
        invariant
            i <= s.len(),
            texts(pieces@).push(current@) == split(s@.take(i as int), a, b),
        decreases s.len() - i,
    {
        let c = s[i];
        assert(s@.take(i + 1).drop_last() =~= s@.take(i as int));
        if c == a || c == b {
            pieces.push(current);
            current = Vec::new();
        } else {
            current.push(c);
        }
        i = i + 1;
    }
    assert(s@.take(s.len() as int) =~= s@);
    pieces.push(current);
    pieces
}

/// The keyword and the fields of `token`.
fn split_fields(token: &[char]) -> (pieces: Vec<Vec<char>>)
    ensures
        texts(pieces@) == fields(token@),
        pieces.len() >= 1,
{
    let mut pieces = split_on(token, '(', ',');
    let n = pieces.len();
    if n > 1 {
        let mut last = pieces.pop().unwrap();
        let m = last.len();
        if m > 0 && last[m - 1] == ')' {
            last.pop();
        }
        pieces.push(last);
    }
    pieces
}

/// The instruction `b` if the token `pieces` has a keyword and nothing else.
fn read_plain(pieces: &Vec<Vec<char>>, b: Block) -> (r: Result<Block, DecodeError>)
    requires
        pieces.len() >= 1,
    ensures
        r == plain(texts(pieces@).skip(1), b),
{
    if pieces.len() == 1 {
        Ok(b)
    } else {
        Err(DecodeError::FieldCount)
    }
}

/// The one field of the token `pieces`, read as a `T`.
fn read_one<T: Decodable>(pieces: &Vec<Vec<char>>) -> (r: Result<T, DecodeError>)
    requires
        pieces.len() >= 1,
    ensures
        r == one::<T>(texts(pieces@).skip(1)),
{
    if pieces.len() == 2 {
        T::decode(pieces[1].as_slice())
    } else {
        Err(DecodeError::FieldCount)
    }
}

/// The two fields of the token `pieces`, read as directions.
fn read_two(pieces: &Vec<Vec<char>>) -> (r: Result<(Direction, Direction), DecodeError>)
    requires
        pieces.len() >= 1,
    ensures
        r == two(texts(pieces@).skip(1)),
{
    if pieces.len() == 3 {
        match Direction::decode(pieces[1].as_slice()) {
            Ok(first) => match Direction::decode(pieces[2].as_slice()) {
                Ok(second) => Ok((first, second)),
                Err(e) => Err(e),
            },
            Err(e) => Err(e),
        }
    } else {
        Err(DecodeError::FieldCount)
    }
}

/// The lines of `text`.
pub fn split_lines(text: &[char]) -> (found: Vec<Vec<char>>)
    ensures
        texts(found@) == lines(text@),
{
    let mut found: Vec<Vec<char>> = Vec::new();
    let mut current: Vec<char> = Vec::new();
    let mut i: usize = 0;
    let ghost strip = |line: Seq<char>| strip_return(line);
    while i < text.len()
        invariant
            i <= text.len(),
            strip == |line: Seq<char>| strip_return(line),
            texts(found@) == split(text@.take(i as int), '\n', '\n').drop_last().map_values(strip),
            current@ == split(text@.take(i as int), '\n', '\n').last(),
        decreases text.len() - i,
    {
        let c = text[i];
        let ghost before = split(text@.take(i as int), '\n', '\n');
        proof {
            assert(text@.take(i + 1).drop_last() =~= text@.take(i as int));
            lemma_split_has_piece(text@.take(i as int), '\n', '\n');
        }
        if c == '\n' {
            let n = current.len();
            if n > 0 && current[n - 1] == '\r' {
                current.pop();
            }
            found.push(current);
            current = Vec::new();
            proof {
                assert(before.push(Seq::empty()).drop_last() =~= before);
                assert(before.map_values(strip) =~= before.drop_last().map_values(strip).push(
                    strip(before.last()),
                ));
            }
        } else {
            current.push(c);
        }
        i = i + 1;
    }
    assert(text@.take(text.len() as int) =~= text@);
    if current.len() > 0 {
        found.push(current);
    }
    found
}

/// Reads one token as a cell.
pub fn decode_cell(token: &[char]) -> (r: Result<Option<Block>, DecodeError>)
    ensures
        r == decoded_cell(token@),
{
    if token.len() == 1 && token[0] == '_' {
        assert(token@ =~= seq!['_']);
        Ok(None)
    } else if token.len() == 0 {
        Err(DecodeError::EmptyToken)
    } else {
        match Block::decode(token) {
            Ok(b) => Ok(Some(b)),
            Err(e) => Err(e),
        }
    }
}

/// Reads one line as a row of cells.
pub fn decode_row(line: &[char]) -> (r: Result<Vec<Option<Block>>, DecodeError>)
    ensures
        match r {
            Ok(cells) => decoded_row(line@) == Ok::<Seq<Option<Block>>, DecodeError>(cells@),
            Err(e) => decoded_row(line@) == Err::<Seq<Option<Block>>, DecodeError>(e),
        },
{
    let tokens = split_on(line, ' ', ' ');
    let ghost all = texts(tokens@);
    let ghost read = |token: Seq<char>| decoded_cell(token);
    let mut cells: Vec<Option<Block>> = Vec::new();
    let mut i: usize = 0;
    while i < tokens.len()
        invariant
            i <= tokens.len(),
            all == texts(tokens@),
            all == split(line@, ' ', ' '),
            read == |token: Seq<char>| decoded_cell(token),
            collect(all.take(i as int), read) == Ok::<Seq<Option<Block>>, DecodeError>(cells@),
        decreases tokens.len() - i,
    {
        assert(all.take(i + 1).drop_last() =~= all.take(i as int));
        match decode_cell(tokens[i].as_slice()) {
            Ok(cell) => {
                cells.push(cell);
            },
            Err(e) => {
                proof {
                    lemma_collect_fails(all, read, i + 1);
                }
                return Err(e);
            },
        }
        i = i + 1;
    }
    assert(all.take(tokens.len() as int) =~= all);
    Ok(cells)
}

/// Reads a text as rows of cells.
pub fn decode_rows(text: &str) -> (r: Result<Vec<Vec<Option<Block>>>, DecodeError>)
    ensures
        match r {
            Ok(rows) => decoded_rows(text@) == Ok::<Seq<Seq<Option<Block>>>, DecodeError>(
                rows_of(rows@),
            ),
            Err(e) => decoded_rows(text@) == Err::<Seq<Seq<Option<Block>>>, DecodeError>(e),
        },
        r is Ok ==> r->Ok_0@.len() == lines(text@).len(),
{
    let chars = chars_of(text);
    let found = split_lines(chars.as_slice());
    let ghost all = texts(found@);
    let ghost read = |line: Seq<char>| decoded_row(line);
    let mut rows: Vec<Vec<Option<Block>>> = Vec::new();
    let mut i: usize = 0;
    assert(rows_of(rows@) =~= Seq::<Seq<Option<Block>>>::empty());
    while i < found.len()
        invariant
            i <= found.len(),
            all == texts(found@),
            all == lines(text@),
            read == |line: Seq<char>| decoded_row(line),
            rows@.len() == i,
            collect(all.take(i as int), read) == Ok::<Seq<Seq<Option<Block>>>, DecodeError>(
                rows_of(rows@),
            ),
        decreases found.len() - i,
    {
        assert(all.take(i + 1).drop_last() =~= all.take(i as int));
        match decode_row(found[i].as_slice()) {
            Ok(row) => {
                let ghost so_far = rows_of(rows@).push(row@);
                rows.push(row);
                assert(rows_of(rows@) =~= so_far);
            },
            Err(e) => {
                proof {
                    lemma_collect_fails(all, read, i + 1);
                }
                return Err(e);
            },
        }
        i = i + 1;
    }
    assert(all.take(found.len() as int) =~= all);
    Ok(rows)
}

impl DynGrid<Block> {
    /// Reads a program from its text: one row on each line, the cells of a
    /// row between single spaces, a cell either `_` for empty or an
    /// instruction written `Keyword`, `Keyword(field)` or
    /// `Keyword(field,field)`.
    pub fn decode(text: &str) -> (r: Result<Self, DecodeError>)
        ensures
            match r {
                Ok(g) => g.view().wf() && decoded_grid(text@) == Ok::<
                    GridView<Block>,
                    DecodeError,
                >(g.view()),
                Err(e) => decoded_grid(text@) == Err::<GridView<Block>, DecodeError>(e),
            },
    {
        let rows = match decode_rows(text) {
            Ok(rows) => rows,
            Err(e) => {
                return Err(e);
            },
        };
        if rows.len() == 0 {
            return Err(DecodeError::EmptyProgram);
        }
        match DynGrid::from_rows(rows) {
            Some(g) => Ok(g),
            None => Err(DecodeError::RaggedRows),
        }
    }
}

impl<const S: usize> ConstGrid<Block, S> {
    /// Reads a program of exactly `S` cells from its text, as
    /// `DynGrid::decode` does. A program of another size gives
    /// `DecodeError::Capacity`.
    pub fn decode(text: &str) -> (r: Result<Self, DecodeError>)
        ensures
            match r {
                Ok(g) => g.view().wf() && decoded_grid(text@) == Ok::<
                    GridView<Block>,
                    DecodeError,
                >(g.view()),
                Err(e) => match decoded_grid(text@) {
                    Ok(v) => e == DecodeError::Capacity && v.cells.len() != S,
                    Err(d) => e == d,
                },
            },
    {
        match DynGrid::decode(text) {
            Ok(grid) => match Self::from_grid(&grid) {
                Some(g) => Ok(g),
                None => Err(DecodeError::Capacity),
            },
            Err(e) => Err(e),
        }
    }
}

/// Reading is a function of the text: two programs read from the same text
/// have the same dimensions and the same cells.
pub proof fn lemma_decoding_repeats(
    text: Seq<char>,
    first: GridView<Block>,
    second: GridView<Block>,
)
    requires
        decoded_grid(text) == Ok::<GridView<Block>, DecodeError>(first),
        decoded_grid(text) == Ok::<GridView<Block>, DecodeError>(second),
    ensures
        first.width == second.width,
        first.height == second.height,
        first.cells == second.cells,
{
}

} // verus!
