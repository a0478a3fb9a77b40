//! Turning a scraped handbook page into a catalog snapshot. The page
//! arrives already reduced to plain text: each selected node is a cell of
//! text fragments, in document order. The functions here assemble titles
//! and unit names from those fragments — trimming each fragment, and for
//! elective entries keeping only the first whitespace-separated token.

use crate::models::{
    lemma_names_view_index, lemma_names_view_len, lemma_names_view_push, majors_view, names_view,
    Handbook, Major, MajorV, Unit,
};
use vstd::prelude::*;

verus! {

/// ASCII whitespace, as it occurs in scraped markup: space, tab, line
/// feed, carriage return.
pub open spec fn is_space(c: char) -> bool {
    c == ' ' || c == '\t' || c == '\n' || c == '\r'
}

/// The text without its leading whitespace.
pub open spec fn trim_start_spec(s: Seq<char>) -> Seq<char>
    decreases s.len(),
{
    if s.len() > 0 && is_space(s.first()) {
        trim_start_spec(s.drop_first())
    } else {
        s
    }
}

/// The text without its trailing whitespace.
pub open spec fn trim_end_spec(s: Seq<char>) -> Seq<char>
    decreases s.len(),
{
    if s.len() > 0 && is_space(s.last()) {
        trim_end_spec(s.drop_last())
    } else {
        s
    }
}

/// The text without leading and trailing whitespace.
pub open spec fn trim_spec(s: Seq<char>) -> Seq<char> {
    trim_start_spec(trim_end_spec(s))
}

/// The longest whitespace-free prefix.
pub open spec fn take_token(s: Seq<char>) -> Seq<char>
    decreases s.len(),
{
    if s.len() > 0 && !is_space(s.first()) {
        seq![s.first()] + take_token(s.drop_first())
    } else {
        Seq::empty()
    }
}

/// The first whitespace-separated token, or nothing if the text is all
/// whitespace.
pub open spec fn first_token_spec(s: Seq<char>) -> Seq<char> {
    take_token(trim_start_spec(s))
}

/// The trimmed fragments of one cell, concatenated in order.
pub open spec fn joined_trimmed(fragments: Seq<Seq<char>>) -> Seq<char>
    decreases fragments.len(),
{
    if fragments.len() == 0 {
        Seq::empty()
    } else {
        joined_trimmed(fragments.drop_last()) + trim_spec(fragments.last())
    }
}

/// The first tokens of one cell's fragments, concatenated in order.
pub open spec fn joined_first_tokens(fragments: Seq<Seq<char>>) -> Seq<char>
    decreases fragments.len(),
{
    if fragments.len() == 0 {
        Seq::empty()
    } else {
        joined_first_tokens(fragments.drop_last()) + first_token_spec(fragments.last())
    }
}

proof fn lemma_trim_start_at(s: Seq<char>, i: int)
    requires
        0 <= i <= s.len(),
        forall|m: int| 0 <= m < i ==> is_space(#[trigger] s[m]),
        i == s.len() || !is_space(s[i]),
    ensures
        trim_start_spec(s) == s.subrange(i, s.len() as int),
    decreases i,
{
    if i == 0 {
        if s.len() > 0 {
            assert(s.first() == s[0]);
        }
        assert(s.subrange(0, s.len() as int) =~= s);
    } else {
        assert(is_space(s[0]));
        let d = s.drop_first();
        assert(forall|m: int| 0 <= m < i - 1 ==> is_space(#[trigger] d[m]));
        lemma_trim_start_at(d, i - 1);
        assert(d.subrange(i - 1, d.len() as int) =~= s.subrange(i, s.len() as int));
    }
}

proof fn lemma_trim_end_at(s: Seq<char>, j: int)
    requires
        0 <= j <= s.len(),
        forall|m: int| j <= m < s.len() ==> is_space(#[trigger] s[m]),
        j == 0 || !is_space(s[j - 1]),
    ensures
        trim_end_spec(s) == s.subrange(0, j),
    decreases s.len(),
{
    if j == s.len() {
        if s.len() > 0 {
            assert(s.last() == s[s.len() - 1]);
        }
        assert(s.subrange(0, s.len() as int) =~= s);
    } else {
        assert(is_space(s.last()));
        let d = s.drop_last();
        assert(forall|m: int| j <= m < d.len() ==> is_space(#[trigger] d[m]));
        lemma_trim_end_at(d, j);
        assert(d.subrange(0, j) =~= s.subrange(0, j));
    }
}

proof fn lemma_take_token_at(s: Seq<char>, t: int)
    requires
        0 <= t <= s.len(),
        forall|m: int| 0 <= m < t ==> !is_space(#[trigger] s[m]),
        t == s.len() || is_space(s[t]),
    ensures
        take_token(s) == s.subrange(0, t),
    decreases t,
{
    if t == 0 {
        assert(s.subrange(0, 0) =~= Seq::<char>::empty());
        if s.len() > 0 {
            assert(s.first() == s[0]);
        }
    } else {
        assert(!is_space(s[0]));
        let d = s.drop_first();
        assert(forall|m: int| 0 <= m < t - 1 ==> !is_space(#[trigger] d[m]));
        lemma_take_token_at(d, t - 1);
        assert(seq![s.first()] + d.subrange(0, t - 1) =~= s.subrange(0, t));
    }
}

/// Whether the character is ASCII whitespace, as `is_space` states.
fn is_space_x(c: char) -> (r: bool)
    ensures
        r == is_space(c),
{
    c == ' ' || c == '\t' || c == '\n' || c == '\r'
}

/// The text without leading and trailing ASCII whitespace.
pub fn trimmed(s: &str) -> (r: String)
    ensures
        r@ == trim_spec(s@),
{
    let n = s.unicode_len();
    let mut j = n;
    while j > 0 && is_space_x(s.get_char(j - 1))
        invariant
            n == s@.len(),
            j <= n,
            forall|m: int| j <= m < n ==> is_space(#[trigger] s@[m]),
        decreases j,
    {
        j -= 1;
    }
    proof {
        lemma_trim_end_at(s@, j as int);
    }
    let mut i: usize = 0;
    while i < j && is_space_x(s.get_char(i))
        invariant
            n == s@.len(),
            i <= j <= n,
            forall|m: int| 0 <= m < i ==> is_space(#[trigger] s@[m]),
        decreases j - i,
    {
        i += 1;
    }
    let ghost tail = s@.subrange(0, j as int);
    proof {
        assert(forall|m: int| 0 <= m < i ==> is_space(#[trigger] tail[m]));
        assert(i < j ==> !is_space(tail[i as int]));
        lemma_trim_start_at(tail, i as int);
        assert(tail.subrange(i as int, j as int) =~= s@.subrange(i as int, j as int));
    }
    let out = s.substring_char(i, j);
    String::from_str(out)
}

/// The first whitespace-separated token of the text, or the empty string
/// if the text is all whitespace.
pub fn first_token(s: &str) -> (r: String)
    ensures
        r@ == first_token_spec(s@),
{
    let n = s.unicode_len();
    let mut i: usize = 0;
    while i < n && is_space_x(s.get_char(i))
        invariant
            n == s@.len(),
            i <= n,
            forall|m: int| 0 <= m < i ==> is_space(#[trigger] s@[m]),
        decreases n - i,
    {
        i += 1;
    }
    proof {
        lemma_trim_start_at(s@, i as int);
    }
    let mut k = i;
    while k < n && !is_space_x(s.get_char(k))
        invariant
            n == s@.len(),
            i <= k <= n,
            forall|m: int| i <= m < k ==> !is_space(#[trigger] s@[m]),
        decreases n - k,
    {
        k += 1;
    }
    let ghost rest = s@.subrange(i as int, n as int);
    proof {
        assert(forall|m: int| 0 <= m < k - i ==> !is_space(#[trigger] rest[m]));
        assert(k < n ==> is_space(rest[k - i]));
        lemma_take_token_at(rest, k - i);
        assert(rest.subrange(0, k - i) =~= s@.subrange(i as int, k as int));
    }
    let out = s.substring_char(i, k);
    String::from_str(out)
}

/// The trimmed fragments of one cell, concatenated.
pub fn collect_trimmed(fragments: &Vec<String>) -> (r: String)
    ensures
        r@ == joined_trimmed(names_view(fragments@)),
{
    broadcast use lemma_names_view_len, lemma_names_view_index;

    let ghost fv = names_view(fragments@);
    let mut out = String::new();
    let mut i: usize = 0;
    proof {
        assert(fv.subrange(0, 0) =~= Seq::<Seq<char>>::empty());
    }
    while i < fragments.len()
        invariant
            fv == names_view(fragments@),
            i <= fragments.len(),
            out@ == joined_trimmed(fv.subrange(0, i as int)),
        decreases fragments.len() - i,
    {
        broadcast use lemma_names_view_len, lemma_names_view_index;

        let piece = trimmed(fragments[i].as_str());
        out.append(piece.as_str());
        proof {
            assert(fv.subrange(0, i + 1).drop_last() =~= fv.subrange(0, i as int));
            assert(fv.subrange(0, i + 1).last() == fv[i as int]);
        }
        i += 1;
    }
    proof {
        assert(fv.subrange(0, fragments@.len() as int) =~= fv);
    }
    out
}

/// The first tokens of one cell's fragments, concatenated.
pub fn collect_first_tokens(fragments: &Vec<String>) -> (r: String)
    ensures
        r@ == joined_first_tokens(names_view(fragments@)),
{
    broadcast use lemma_names_view_len, lemma_names_view_index;

    let ghost fv = names_view(fragments@);
    let mut out = String::new();
    let mut i: usize = 0;
    proof {
        assert(fv.subrange(0, 0) =~= Seq::<Seq<char>>::empty());
    }
    while i < fragments.len()
        invariant
            fv == names_view(fragments@),
            i <= fragments.len(),
            out@ == joined_first_tokens(fv.subrange(0, i as int)),
        decreases fragments.len() - i,
    {
        broadcast use lemma_names_view_len, lemma_names_view_index;

        let piece = first_token(fragments[i].as_str());
        out.append(piece.as_str());
        proof {
            assert(fv.subrange(0, i + 1).drop_last() =~= fv.subrange(0, i as int));
            assert(fv.subrange(0, i + 1).last() == fv[i as int]);
        }
        i += 1;
    }
    proof {
        assert(fv.subrange(0, fragments@.len() as int) =~= fv);
    }
    out
}

/// One text-bearing node selected from the page: its text fragments, in
/// document order.
#[derive(Debug)]
pub struct TextCell {
    pub fragments: Vec<String>,
}

impl View for TextCell {
    type V = Seq<Seq<char>>;

    open spec fn view(&self) -> Seq<Seq<char>> {
        names_view(self.fragments@)
    }
}

/// The model of a list of cells.
pub open spec fn cells_view(cells: Seq<TextCell>) -> Seq<Seq<Seq<char>>> {
    cells.map_values(|c: TextCell| c@)
}

pub broadcast proof fn lemma_cells_view_len(cells: Seq<TextCell>)
    ensures
        (#[trigger] cells_view(cells)).len() == cells.len(),
{
}

pub broadcast proof fn lemma_cells_view_index(cells: Seq<TextCell>, k: int)
    requires
        0 <= k < cells.len(),
    ensures
        #[trigger] cells_view(cells)[k] == cells[k]@,
{
}

/// One major's section of the study structure: its heading cells (the
/// first carries the title) and its unit cells.
#[derive(Debug)]
pub struct MajorBlock {
    pub headings: Vec<TextCell>,
    pub unit_cells: Vec<TextCell>,
}

/// Mathematical model of a major's section.
pub ghost struct MajorBlockV {
    pub headings: Seq<Seq<Seq<char>>>,
    pub unit_cells: Seq<Seq<Seq<char>>>,
}

impl View for MajorBlock {
    type V = MajorBlockV;

    open spec fn view(&self) -> MajorBlockV {
        MajorBlockV { headings: cells_view(self.headings@), unit_cells: cells_view(self.unit_cells@) }
    }
}

/// The model of a list of major sections.
pub open spec fn blocks_view(blocks: Seq<MajorBlock>) -> Seq<MajorBlockV> {
    blocks.map_values(|b: MajorBlock| b@)
}

pub broadcast proof fn lemma_blocks_view_len(blocks: Seq<MajorBlock>)
    ensures
        (#[trigger] blocks_view(blocks)).len() == blocks.len(),
{
}

pub broadcast proof fn lemma_blocks_view_index(blocks: Seq<MajorBlock>, k: int)
    requires
        0 <= k < blocks.len(),
    ensures
        #[trigger] blocks_view(blocks)[k] == blocks[k]@,
{
}

/// The study-structure section of the page: the major sections, the core
/// unit cells and the elective entries.
#[derive(Debug)]
pub struct StudyStructure {
    pub major_blocks: Vec<MajorBlock>,
    pub core_cells: Vec<TextCell>,
    pub elective_items: Vec<TextCell>,
}

/// Mathematical model of the study structure.
pub ghost struct StudyStructureV {
    pub major_blocks: Seq<MajorBlockV>,
    pub core_cells: Seq<Seq<Seq<char>>>,
    pub elective_items: Seq<Seq<Seq<char>>>,
}

impl View for StudyStructure {
    type V = StudyStructureV;

    open spec fn view(&self) -> StudyStructureV {
        StudyStructureV {
            major_blocks: blocks_view(self.major_blocks@),
            core_cells: cells_view(self.core_cells@),
            elective_items: cells_view(self.elective_items@),
        }
    }
}

/// A scraped handbook page, reduced to the text the extraction reads: the
/// study-structure sections found in it, in document order.
#[derive(Debug)]
pub struct HandbookPage {
    pub study_structures: Vec<StudyStructure>,
}

/// What can go wrong while assembling a snapshot from a page.
#[derive(Debug)]
pub enum ParseError {
    MissingStudyStructure,
    MissingMajorTitle,
}

/// The first study-structure section of the page; a page without one
/// cannot be parsed.
pub fn parse_study_structure(page: &HandbookPage) -> (r: Result<&StudyStructure, ParseError>)
    ensures
        match r {
            Ok(ss) => page.study_structures@.len() > 0 && *ss == page.study_structures@[0],
            Err(e) => page.study_structures@.len() == 0 && e is MissingStudyStructure,
        },
{
    if page.study_structures.len() == 0 {
        Err(ParseError::MissingStudyStructure)
    } else {
        Ok(&page.study_structures[0])
    }
}

/// The major parsed from one section: the title is the trimmed text of
/// the first heading cell, each unit name the trimmed text of one unit
/// cell. Meaningful only when a heading is present.
pub open spec fn parsed_major(b: MajorBlockV) -> MajorV {
    MajorV {
        title: joined_trimmed(b.headings[0]),
        units: b.unit_cells.map_values(|cell: Seq<Seq<char>>| joined_trimmed(cell)),
    }
}

/// The majors parsed from a section list.
pub open spec fn parsed_majors(blocks: Seq<MajorBlockV>) -> Seq<MajorV> {
    blocks.map_values(|b: MajorBlockV| parsed_major(b))
}

/// Every major of the study structure, in order: one per section, its
/// title from the section's first heading cell, its units from the unit
/// cells. A section without a heading has no title and fails the parse.
pub fn parse_majors(study_structure: &StudyStructure) -> (r: Result<Vec<Major>, ParseError>)
    ensures
        match r {
            Ok(ms) => {
                &&& forall|j: int|
                    0 <= j < study_structure@.major_blocks.len() ==> (
                    #[trigger] study_structure@.major_blocks[j]).headings.len() > 0
                &&& majors_view(ms@) == parsed_majors(study_structure@.major_blocks)
            },
            Err(e) => {
                &&& exists|j: int|
                    0 <= j < study_structure@.major_blocks.len() && (
                    #[trigger] study_structure@.major_blocks[j]).headings.len() == 0
                &&& e is MissingMajorTitle
            },
        },
{
    broadcast use lemma_blocks_view_len, lemma_blocks_view_index;
    broadcast use lemma_cells_view_len, lemma_cells_view_index;
    broadcast use crate::models::lemma_majors_view_len, crate::models::lemma_majors_view_index;

    let blocks = &study_structure.major_blocks;
    let ghost bv = study_structure@.major_blocks;
    let mut out: Vec<Major> = Vec::new();
    let mut i: usize = 0;
    proof {
        assert(bv.subrange(0, 0) =~= Seq::<MajorBlockV>::empty());
        assert(majors_view(out@) =~= parsed_majors(bv.subrange(0, 0)));
    }
    while i < blocks.len()
        invariant
            blocks == &study_structure.major_blocks,
            bv == study_structure@.major_blocks,
            i <= blocks.len(),
            forall|j: int| 0 <= j < i ==> (#[trigger] bv[j]).headings.len() > 0,
            majors_view(out@) == parsed_majors(bv.subrange(0, i as int)),
        decreases blocks.len() - i,
    {
        broadcast use lemma_blocks_view_len, lemma_blocks_view_index;
        broadcast use lemma_cells_view_len, lemma_cells_view_index;
        broadcast use crate::models::lemma_majors_view_len, crate::models::lemma_majors_view_index;
        broadcast use lemma_names_view_len, lemma_names_view_index, lemma_names_view_push;

        let block = &blocks[i];
        proof {
            assert(bv[i as int] == block@);
        }
        if block.headings.len() == 0 {
            proof {
                assert(bv[i as int].headings.len() == 0);
            }
            return Err(ParseError::MissingMajorTitle);
        }
        let title = collect_trimmed(&block.headings[0].fragments);
        proof {
            assert(block@.headings[0] == block.headings@[0]@);
        }
        let ghost cv = block@.unit_cells;
        let mut units: Vec<Unit> = Vec::new();
        let mut j: usize = 0;
        proof {
            assert(cv.subrange(0, 0) =~= Seq::<Seq<Seq<char>>>::empty());
            assert(names_view(units@) =~= cv.subrange(0, 0).map_values(
                |cell: Seq<Seq<char>>| joined_trimmed(cell),
            ));
        }
        while j < block.unit_cells.len()
            invariant
                block == &blocks@[i as int],
                i < blocks@.len(),
                cv == block@.unit_cells,
                j <= block.unit_cells.len(),
                names_view(units@) == cv.subrange(0, j as int).map_values(
                    |cell: Seq<Seq<char>>| joined_trimmed(cell),
                ),
            decreases block.unit_cells.len() - j,
        {
            broadcast use lemma_cells_view_len, lemma_cells_view_index;
            broadcast use lemma_names_view_len, lemma_names_view_index, lemma_names_view_push;

            let name = collect_trimmed(&block.unit_cells[j].fragments);
            proof {
                assert(cv[j as int] == block.unit_cells@[j as int]@);
                assert(cv.subrange(0, j + 1) =~= cv.subrange(0, j as int).push(cv[j as int]));
                assert(cv.subrange(0, j + 1).map_values(
                    |cell: Seq<Seq<char>>| joined_trimmed(cell),
                ) =~= cv.subrange(0, j as int).map_values(
                    |cell: Seq<Seq<char>>| joined_trimmed(cell),
                ).push(joined_trimmed(cv[j as int])));
            }
            units.push(name);
            j += 1;
        }
        proof {
            assert(cv.subrange(0, block.unit_cells@.len() as int) =~= cv);
        }
        let major = Major { title, units };
        proof {
            assert(major@ == parsed_major(bv[i as int]));
            assert(bv.subrange(0, i + 1) =~= bv.subrange(0, i as int).push(bv[i as int]));
            assert(parsed_majors(bv.subrange(0, i + 1)) =~= parsed_majors(
                bv.subrange(0, i as int),
            ).push(parsed_major(bv[i as int])));
            assert(majors_view(out@.push(major)) =~= majors_view(out@).push(major@)) by {
                broadcast use crate::models::lemma_majors_view_len, crate::models::lemma_majors_view_index;

            }
        }
        out.push(major);
        i += 1;
    }
    proof {
        assert(bv.subrange(0, blocks@.len() as int) =~= bv);
    }
    Ok(out)
}

/// The names parsed from a list of cells by trimming and concatenating
/// each cell's fragments.
pub open spec fn parsed_trimmed_names(cells: Seq<Seq<Seq<char>>>) -> Seq<Seq<char>> {
    cells.map_values(|cell: Seq<Seq<char>>| joined_trimmed(cell))
}

/// The names parsed from a list of entries by keeping each fragment's
/// first whitespace-separated token.
pub open spec fn parsed_token_names(cells: Seq<Seq<Seq<char>>>) -> Seq<Seq<char>> {
    cells.map_values(|cell: Seq<Seq<char>>| joined_first_tokens(cell))
}

/// Every core unit name of the study structure, one per core cell, from
/// the cell's trimmed fragments.
pub fn parse_cores(study_structure: &StudyStructure) -> (r: Result<Vec<Unit>, ParseError>)
    ensures
        match r {
            Ok(names) => names_view(names@) == parsed_trimmed_names(study_structure@.core_cells),
            Err(_) => false,
        },
{
    broadcast use lemma_cells_view_len, lemma_cells_view_index;
    broadcast use lemma_names_view_len, lemma_names_view_index, lemma_names_view_push;

    let cells = &study_structure.core_cells;
    let ghost cv = study_structure@.core_cells;
    let mut out: Vec<Unit> = Vec::new();
    let mut i: usize = 0;
    proof {
        assert(cv.subrange(0, 0) =~= Seq::<Seq<Seq<char>>>::empty());
        assert(names_view(out@) =~= parsed_trimmed_names(cv.subrange(0, 0)));
    }
    while i < cells.len()
        invariant
            cells == &study_structure.core_cells,
            cv == study_structure@.core_cells,
            i <= cells.len(),
            names_view(out@) == parsed_trimmed_names(cv.subrange(0, i as int)),
        decreases cells.len() - i,
    {
        broadcast use lemma_cells_view_len, lemma_cells_view_index;
        broadcast use lemma_names_view_len, lemma_names_view_index, lemma_names_view_push;

        let name = collect_trimmed(&cells[i].fragments);
        proof {
            assert(cv[i as int] == cells@[i as int]@);
            assert(cv.subrange(0, i + 1) =~= cv.subrange(0, i as int).push(cv[i as int]));
            assert(parsed_trimmed_names(cv.subrange(0, i + 1)) =~= parsed_trimmed_names(
                cv.subrange(0, i as int),
            ).push(joined_trimmed(cv[i as int])));
        }
        out.push(name);
        i += 1;
    }
    proof {
        assert(cv.subrange(0, cells@.len() as int) =~= cv);
    }
    Ok(out)
}

/// Every elective unit name of the study structure, one per entry; an
/// entry's name is the first whitespace-separated token of each fragment,
/// concatenated — list entries carry the unit code first, then prose.
pub fn parse_electives(study_structure: &StudyStructure) -> (r: Result<Vec<Unit>, ParseError>)
    ensures
        match r {
            Ok(names) => names_view(names@) == parsed_token_names(
                study_structure@.elective_items,
            ),
            Err(_) => false,
        },
{
    broadcast use lemma_cells_view_len, lemma_cells_view_index;
    broadcast use lemma_names_view_len, lemma_names_view_index, lemma_names_view_push;

    let cells = &study_structure.elective_items;
    let ghost cv = study_structure@.elective_items;
    let mut out: Vec<Unit> = Vec::new();
    let mut i: usize = 0;
    proof {
        assert(cv.subrange(0, 0) =~= Seq::<Seq<Seq<char>>>::empty());
        assert(names_view(out@) =~= parsed_token_names(cv.subrange(0, 0)));
    }
    while i < cells.len()
        invariant
            cells == &study_structure.elective_items,
            cv == study_structure@.elective_items,
            i <= cells.len(),
            names_view(out@) == parsed_token_names(cv.subrange(0, i as int)),
        decreases cells.len() - i,
    {
        broadcast use lemma_cells_view_len, lemma_cells_view_index;
        broadcast use lemma_names_view_len, lemma_names_view_index, lemma_names_view_push;

        let name = collect_first_tokens(&cells[i].fragments);
        proof {
            assert(cv[i as int] == cells@[i as int]@);
            assert(cv.subrange(0, i + 1) =~= cv.subrange(0, i as int).push(cv[i as int]));
            assert(parsed_token_names(cv.subrange(0, i + 1)) =~= parsed_token_names(
                cv.subrange(0, i as int),
            ).push(joined_first_tokens(cv[i as int])));
        }
        out.push(name);
        i += 1;
    }
    proof {
        assert(cv.subrange(0, cells@.len() as int) =~= cv);
    }
    Ok(out)
}

/// The snapshot parsed from a whole page: the majors, cores and electives
/// of its first study-structure section.
pub open spec fn parsed_handbook(ss: StudyStructureV) -> crate::models::HandbookV {
    crate::models::HandbookV {
        majors: parsed_majors(ss.major_blocks),
        cores: parsed_trimmed_names(ss.core_cells),
        electives: parsed_token_names(ss.elective_items),
    }
}

/// Assembles the catalog snapshot from a scraped page: the first
/// study-structure section's majors, core units and electives.
pub fn parse_handbook_page(page: &HandbookPage) -> (r: Result<Handbook, ParseError>)
    ensures
        match r {
            Ok(h) => {
                &&& page.study_structures@.len() > 0
                &&& forall|j: int|
                    0 <= j < page.study_structures@[0]@.major_blocks.len() ==> (
                    #[trigger] page.study_structures@[0]@.major_blocks[j]).headings.len() > 0
                &&& h@ == parsed_handbook(page.study_structures@[0]@)
            },
            Err(e) => match e {
                ParseError::MissingStudyStructure => page.study_structures@.len() == 0,
                ParseError::MissingMajorTitle => page.study_structures@.len() > 0 && exists|j: int|
                    0 <= j < page.study_structures@[0]@.major_blocks.len() && (
                    #[trigger] page.study_structures@[0]@.major_blocks[j]).headings.len() == 0,
            },
        },
{
    let study_structure = match parse_study_structure(page) {
        Ok(ss) => ss,
        Err(e) => {
            return Err(e);
        },
    };
    let majors = match parse_majors(study_structure) {
        Ok(ms) => ms,
        Err(e) => {
            return Err(e);
        },
    };
    let cores = match parse_cores(study_structure) {
        Ok(cs) => cs,
        Err(e) => {
            return Err(e);
        },
    };
    let electives = match parse_electives(study_structure) {
        Ok(es) => es,
        Err(e) => {
            return Err(e);
        },
    };
    Ok(Handbook { majors, cores, electives })
}

} // verus!
