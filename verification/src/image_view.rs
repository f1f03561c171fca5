//! The table of images.
use vstd::prelude::*;

use crate::docker::api::{bytes_of, ImageSummary};
use crate::error::concat3;
use crate::text::{self, texts};

verus! {

/// The repository and the tag of a name.
pub open spec fn repo_tag_view(value: Seq<char>) -> (Seq<char>, Seq<char>) {
    match text::rsplit_once_view(value, ':') {
        Some((repository, tag)) if text::find_char(tag, '/') is None => (repository, tag),
        _ => (value, "<none>"@),
    }
}

/// Splits a name into its repository and its tag. What follows a colon is no tag where it holds a
/// slash.
pub fn split_repo_tag(value: &str) -> (r: (&str, &str))
    ensures
        (r.0@, r.1@) == repo_tag_view(value@),
{
    match text::rsplit_once(value, ':') {
        Some((repository, tag)) => {
            proof {
                text::lemma_find_char(tag@, '/');
            }
            if !text::has_char(tag, '/') {
                (repository, tag)
            } else {
                (value, "<none>")
            }
        },
        None => (value, "<none>"),
    }
}

/// The start of the identifier of an image.
pub open spec fn short_id_view(value: Seq<char>) -> Seq<char> {
    let id = match text::strip_prefix_view(value, "sha256:"@) {
        Some(rest) => rest,
        None => value,
    };
    if id.len() > 12 {
        id.take(12)
    } else {
        id
    }
}

/// The start of the identifier of an image, without the name of its algorithm.
pub fn short_image_id(value: &str) -> (r: &str)
    ensures
        r@ == short_id_view(value@),
{
    let id = match text::strip_prefix(value, "sha256:") {
        Some(rest) => rest,
        None => value,
    };
    if id.unicode_len() > 12 {
        assert(id@.subrange(0, 12) =~= id@.take(12));
        id.substring_char(0, 12)
    } else {
        id
    }
}

/// A number of units ago.
pub open spec fn ago(value: nat, unit: Seq<char>) -> Seq<char> {
    if value == 1 {
        "1 "@ + unit + " ago"@
    } else {
        text::decimal_view(value) + " "@ + unit + "s ago"@
    }
}

/// How long ago something was made, in the largest unit that fits.
pub open spec fn age_view(delta: nat) -> Seq<char> {
    if delta < 60 {
        ago(delta, "second"@)
    } else if delta < 3600 {
        ago(delta / 60, "minute"@)
    } else if delta < 86400 {
        ago(delta / 3600, "hour"@)
    } else if delta < 604800 {
        ago(delta / 86400, "day"@)
    } else if delta < 2592000 {
        ago(delta / 604800, "week"@)
    } else if delta < 31536000 {
        ago(delta / 2592000, "month"@)
    } else {
        ago(delta / 31536000, "year"@)
    }
}

/// When an image was made.
pub open spec fn created_view(created: Option<i64>, now: Option<u64>) -> Seq<char> {
    match (created, now) {
        (Some(made), Some(seconds)) => {
            let at = if made < 0 {
                0
            } else {
                made as int
            };
            if at > seconds {
                "just now"@
            } else {
                age_view((seconds - at) as nat)
            }
        },
        _ => "<unknown>"@,
    }
}

/// A number of units ago.
fn units_ago(value: u64, unit: &str) -> (s: String)
    ensures
        s@ == ago(value as nat, unit@),
{
    if value == 1 {
        concat3("1 ", unit, " ago")
    } else {
        let mut s = concat3(text::decimal(value).as_str(), " ", unit);
        s.append("s ago");
        s
    }
}

/// Says when an image was made. Both times are seconds of one calendar; where the clock or the
/// time is not known, so is the result.
pub fn format_created(created: Option<i64>, now: Option<u64>) -> (s: String)
    ensures
        s@ == created_view(created, now),
{
    match (created, now) {
        (Some(made), Some(seconds)) => {
            let at: u64 = if made < 0 {
                0
            } else {
                made as u64
            };
            if at > seconds {
                return "just now".to_owned();
            }
            let delta = seconds - at;
            if delta < 60 {
                units_ago(delta, "second")
            } else if delta < 3600 {
                units_ago(delta / 60, "minute")
            } else if delta < 86400 {
                units_ago(delta / 3600, "hour")
            } else if delta < 604800 {
                units_ago(delta / 86400, "day")
            } else if delta < 2592000 {
                units_ago(delta / 604800, "week")
            } else if delta < 31536000 {
                units_ago(delta / 2592000, "month")
            } else {
                units_ago(delta / 31536000, "year")
            }
        },
        _ => "<unknown>".to_owned(),
    }
}

/// A row of the table of images.
#[derive(Debug)]
pub struct ImageRow {
    pub repository: String,
    pub tag: String,
    pub image_id: String,
    pub created: String,
    pub size: String,
}

/// A row of the table of images, as text.
pub struct ImageRowView {
    pub repository: Seq<char>,
    pub tag: Seq<char>,
    pub image_id: Seq<char>,
    pub created: Seq<char>,
    pub size: Seq<char>,
}

impl View for ImageRow {
    type V = ImageRowView;

    open spec fn view(&self) -> ImageRowView {
        ImageRowView {
            repository: self.repository@,
            tag: self.tag@,
            image_id: self.image_id@,
            created: self.created@,
            size: self.size@,
        }
    }
}

/// The rows of a table, as text.
pub open spec fn rows_view(rows: Seq<ImageRow>) -> Seq<ImageRowView> {
    rows.map_values(|r: ImageRow| r@)
}

/// The rows of an image: one for each of its names, or one without a name.
pub open spec fn image_rows_view(
    image: ImageSummary,
    now: Option<u64>,
    size: Seq<char>,
) -> Seq<ImageRowView> {
    let tags = texts(image.repo_tags@);
    if tags.len() == 0 {
        seq![
            ImageRowView {
                repository: "<none>"@,
                tag: "<none>"@,
                image_id: short_id_view(image.id@),
                created: created_view(image.created, now),
                size,
            },
        ]
    } else {
        tags.map_values(
            |name: Seq<char>|
                ImageRowView {
                    repository: repo_tag_view(name).0,
                    tag: repo_tag_view(name).1,
                    image_id: short_id_view(image.id@),
                    created: created_view(image.created, now),
                    size,
                },
        )
    }
}

/// Lists the rows of an image, whose size is shown as given.
pub fn image_rows(image: &ImageSummary, now: Option<u64>, size: &str) -> (rows: Vec<ImageRow>)
    ensures
        rows_view(rows@) == image_rows_view(*image, now, size@),
{
    let mut rows: Vec<ImageRow> = Vec::new();
    if image.repo_tags.len() == 0 {
        rows.push(
            ImageRow {
                repository: "<none>".to_owned(),
                tag: "<none>".to_owned(),
                image_id: short_image_id(image.id.as_str()).to_owned(),
                created: format_created(image.created, now),
                size: size.to_owned(),
            },
        );
        assert(rows_view(rows@) =~= image_rows_view(*image, now, size@));
        return rows;
    }
    let ghost goal = image_rows_view(*image, now, size@);
    let mut i: usize = 0;
    while i < image.repo_tags.len()
        invariant
            i <= image.repo_tags@.len(),
            image.repo_tags@.len() > 0,
            goal == image_rows_view(*image, now, size@),
            rows_view(rows@) == goal.take(i as int),
        decreases image.repo_tags@.len() - i,
    {
        let (repository, tag) = split_repo_tag(image.repo_tags[i].as_str());
        let ghost before = rows@;
        let row = ImageRow {
            repository: repository.to_owned(),
            tag: tag.to_owned(),
            image_id: short_image_id(image.id.as_str()).to_owned(),
            created: format_created(image.created, now),
            size: size.to_owned(),
        };
        rows.push(row);
        assert(rows_view(rows@) =~= rows_view(before).push(row@));
        assert(goal[i as int] == row@);
        assert(goal.take(i + 1) =~= goal.take(i as int).push(row@));
        i += 1;
    }
    assert(goal.take(i as int) =~= goal);
    rows
}

/// How many bytes a text has.
pub open spec fn byte_len(s: Seq<char>) -> int {
    bytes_of(s).len() as int
}

/// The greater of two widths.
pub open spec fn wider(a: int, b: int) -> int {
    if a < b {
        b
    } else {
        a
    }
}

/// The width of a column of a table: that of its widest cell in bytes, and at least `least`.
pub open spec fn column_width(cells: Seq<Seq<char>>, least: int) -> int
    decreases cells.len(),
{
    if cells.len() == 0 {
        least
    } else {
        wider(column_width(cells.drop_last(), least), byte_len(cells.last()))
    }
}

/// So many spaces.
pub open spec fn spaces(n: int) -> Seq<char> {
    Seq::new(
        if n < 0 {
            0
        } else {
            n as nat
        },
        |i: int| ' ',
    )
}

/// A text at the left of a column.
pub open spec fn padded(s: Seq<char>, width: int) -> Seq<char> {
    s + spaces(width - s.len())
}

/// The widths of the columns of a table.
pub struct Widths {
    pub repository: usize,
    pub tag: usize,
    pub image_id: usize,
    pub created: usize,
}

/// The widths of the columns of the table of images.
pub open spec fn has_widths(rows: Seq<ImageRowView>, w: Widths) -> bool {
    &&& w.repository == column_width(rows.map_values(|r: ImageRowView| r.repository), 10)
    &&& w.tag == column_width(rows.map_values(|r: ImageRowView| r.tag), 3)
    &&& w.image_id == column_width(rows.map_values(|r: ImageRowView| r.image_id), 8)
    &&& w.created == column_width(rows.map_values(|r: ImageRowView| r.created), 7)
}

/// A line of the table.
pub open spec fn row_line(row: ImageRowView, w: Widths) -> Seq<char> {
    padded(row.repository, w.repository as int) + "  "@ + padded(row.tag, w.tag as int) + "  "@
        + padded(row.image_id, w.image_id as int) + "  "@ + padded(
        row.created,
        w.created as int,
    ) + "  "@ + row.size
}

/// The greater of a width and the bytes of a text.
fn wider_than(width: usize, s: &str) -> (r: usize)
    ensures
        r == wider(width as int, byte_len(s@)),
{
    let n = s.as_bytes().len();
    if width < n {
        n
    } else {
        width
    }
}

/// Finds the widths of the columns of the table of images.
fn widths(rows: &Vec<ImageRow>) -> (w: Widths)
    ensures
        has_widths(rows_view(rows@), w),
{
    let ghost all = rows_view(rows@);
    let ghost repositories = all.map_values(|r: ImageRowView| r.repository);
    let ghost tags = all.map_values(|r: ImageRowView| r.tag);
    let ghost ids = all.map_values(|r: ImageRowView| r.image_id);
    let ghost made = all.map_values(|r: ImageRowView| r.created);
    let mut w = Widths { repository: 10, tag: 3, image_id: 8, created: 7 };
    let mut i: usize = 0;
    while i < rows.len()
        invariant
            i <= rows@.len(),
            all == rows_view(rows@),
            repositories == all.map_values(|r: ImageRowView| r.repository),
            tags == all.map_values(|r: ImageRowView| r.tag),
            ids == all.map_values(|r: ImageRowView| r.image_id),
            made == all.map_values(|r: ImageRowView| r.created),
            w.repository == column_width(repositories.take(i as int), 10),
            w.tag == column_width(tags.take(i as int), 3),
            w.image_id == column_width(ids.take(i as int), 8),
            w.created == column_width(made.take(i as int), 7),
        decreases rows@.len() - i,
    {
        assert(repositories.take(i + 1).drop_last() =~= repositories.take(i as int));
        assert(tags.take(i + 1).drop_last() =~= tags.take(i as int));
        assert(ids.take(i + 1).drop_last() =~= ids.take(i as int));
        assert(made.take(i + 1).drop_last() =~= made.take(i as int));
        assert(all[i as int] == rows@[i as int]@);
        w = Widths {
            repository: wider_than(w.repository, rows[i].repository.as_str()),
            tag: wider_than(w.tag, rows[i].tag.as_str()),
            image_id: wider_than(w.image_id, rows[i].image_id.as_str()),
            created: wider_than(w.created, rows[i].created.as_str()),
        };
        i += 1;
    }
    assert(repositories.take(i as int) =~= repositories);
    assert(tags.take(i as int) =~= tags);
    assert(ids.take(i as int) =~= ids);
    assert(made.take(i as int) =~= made);
    w
}

/// Adds a text at the left of a column.
fn push_padded(line: &mut String, s: &str, width: usize)
    ensures
        final(line)@ == old(line)@ + padded(s@, width as int),
{
    line.append(s);
    let ghost before = line@;
    let n = s.unicode_len();
    let mut i: usize = n;
    assert(before =~= before + spaces(0));
    while i < width
        invariant
            n <= i,
            i <= width || i == n,
            n == s@.len(),
            line@ == before + spaces(i - n),
        decreases width - i,
    {
        line.push(' ');
        assert(before + spaces(i + 1 - n) =~= (before + spaces(i - n)).push(' '));
        i += 1;
    }
    assert(spaces(width - n) =~= spaces(i - n));
    assert(line@ =~= old(line)@ + padded(s@, width as int));
}

/// A line of the table.
fn format_row(
    repository: &str,
    tag: &str,
    image_id: &str,
    created: &str,
    size: &str,
    w: &Widths,
) -> (line: String)
    ensures
        line@ == row_line(
            ImageRowView {
                repository: repository@,
                tag: tag@,
                image_id: image_id@,
                created: created@,
                size: size@,
            },
            *w,
        ),
{
    let mut line = "".to_owned();
    proof {
        reveal_strlit("");
    }
    push_padded(&mut line, repository, w.repository);
    line.append("  ");
    push_padded(&mut line, tag, w.tag);
    line.append("  ");
    push_padded(&mut line, image_id, w.image_id);
    line.append("  ");
    push_padded(&mut line, created, w.created);
    line.append("  ");
    line.append(size);
    assert(line@ =~= row_line(
        ImageRowView {
            repository: repository@,
            tag: tag@,
            image_id: image_id@,
            created: created@,
            size: size@,
        },
        *w,
    ));
    line
}

/// The heading of the table.
pub open spec fn heading() -> ImageRowView {
    ImageRowView {
        repository: "REPOSITORY"@,
        tag: "TAG"@,
        image_id: "IMAGE ID"@,
        created: "CREATED"@,
        size: "SIZE"@,
    }
}

/// Lays out the table of images: a heading and a line for each row, in columns as wide as their
/// widest cell.
pub fn image_table(rows: &Vec<ImageRow>) -> (lines: Vec<String>)
    ensures
        exists|w: Widths| #[trigger]
            has_widths(rows_view(rows@), w) && texts(lines@) == seq![row_line(heading(), w)]
                + rows_view(rows@).map_values(|r: ImageRowView| row_line(r, w)),
{
    let w = widths(rows);
    let ghost all = rows_view(rows@);
    let ghost shown = all.map_values(|r: ImageRowView| row_line(r, w));
    let mut lines: Vec<String> = Vec::new();
    let first = format_row("REPOSITORY", "TAG", "IMAGE ID", "CREATED", "SIZE", &w);
    lines.push(first);
    assert(texts(lines@) =~= seq![row_line(heading(), w)] + shown.take(0));
    let mut i: usize = 0;
    while i < rows.len()
        invariant
            i <= rows@.len(),
            all == rows_view(rows@),
            shown == all.map_values(|r: ImageRowView| row_line(r, w)),
            texts(lines@) == seq![row_line(heading(), w)] + shown.take(i as int),
        decreases rows@.len() - i,
    {
        let line = format_row(
            rows[i].repository.as_str(),
            rows[i].tag.as_str(),
            rows[i].image_id.as_str(),
            rows[i].created.as_str(),
            rows[i].size.as_str(),
            &w,
        );
        let ghost before = lines@;
        lines.push(line);
        assert(all[i as int] == rows@[i as int]@);
        assert(texts(lines@) =~= texts(before).push(line@));
        assert(shown.take(i + 1) =~= shown.take(i as int).push(line@));
        assert(texts(lines@) =~= seq![row_line(heading(), w)] + shown.take(i + 1));
        i += 1;
    }
    assert(shown.take(i as int) =~= shown);
    assert(has_widths(all, w));
    lines
}

/// The failure for an image that the daemon does not have.
pub fn missing_image_error(reference: &str) -> (e: crate::error::DockerPullError)
    ensures
        e@ == crate::error::ErrorView::CommandFailed(
            "docker image inspect failed: image `"@ + reference@ + "` not found"@,
        ),
{
    crate::error::DockerPullError::CommandFailed(
        concat3("docker image inspect failed: image `", reference, "` not found"),
    )
}

/// A name is a repository and a tag where a colon and no slash stands between them; the port of a
/// registry is no tag.
pub proof fn law_a_name_is_shown_in_two_columns(repository: Seq<char>, tag: Seq<char>)
    requires
        !tag.contains(':'),
    ensures
        !tag.contains('/') ==> repo_tag_view(repository + ":"@ + tag) == (repository, tag),
        tag.contains('/') ==> repo_tag_view(repository + ":"@ + tag) == (
            repository + ":"@ + tag,
            "<none>"@,
        ),
        repo_tag_view(tag) == (tag, "<none>"@),
{
    reveal_strlit(":");
    text::lemma_rsplit_once_at(repository, ':', tag);
    assert(repository + ":"@ + tag =~= repository + seq![':'] + tag);
    text::lemma_find_char(tag, '/');
    text::lemma_rfind_char(tag, ':');
}

/// An identifier is shown by its first twelve digits, with or without the name of its algorithm.
pub proof fn law_an_identifier_is_cut_short(value: Seq<char>)
    requires
        value.len() > 0,
        value[0] != 's',
    ensures
        value.len() >= 12 ==> short_id_view(value) == value.take(12) && short_id_view(
            "sha256:"@ + value,
        ) == value.take(12),
        value.len() < 12 ==> short_id_view(value) == value && short_id_view("sha256:"@ + value)
            == value,
{
    reveal_strlit("sha256:");
    let p = "sha256:"@;
    assert(p[0] == 's');
    assert((p + value).subrange(0, 7) =~= p);
    assert((p + value).skip(7) =~= value);
    if value.len() == 12 {
        assert(value.take(12) =~= value);
    }
}

/// An age is told in whole units of which it holds at least one: seconds below a minute, minutes
/// below an hour, hours below a day, days below a week, weeks below thirty days, months of thirty
/// days below a year of 365 days, and years.
pub proof fn law_an_age_is_told_in_its_unit(n: nat, rest: nat)
    ensures
        n < 60 ==> age_view(n) == ago(n, "second"@),
        1 <= n < 60 && rest < 60 ==> age_view(n * 60 + rest) == ago(n, "minute"@),
        1 <= n < 24 && rest < 3600 ==> age_view(n * 3600 + rest) == ago(n, "hour"@),
        1 <= n < 7 && rest < 86400 ==> age_view(n * 86400 + rest) == ago(n, "day"@),
        1 <= n < 4 && rest < 604800 ==> age_view(n * 604800 + rest) == ago(n, "week"@),
        1 <= n < 12 && rest < 2592000 ==> age_view(n * 2592000 + rest) == ago(n, "month"@),
        1 <= n && rest < 31536000 ==> age_view(n * 31536000 + rest) == ago(n, "year"@),
        forall|unit: Seq<char>| #[trigger] ago(1, unit) == "1 "@ + unit + " ago"@,
        forall|unit: Seq<char>|
            n != 1 ==> #[trigger] ago(n, unit) == text::decimal_view(n) + " "@ + unit + "s ago"@,
{
    lemma_units(n, 60, rest);
    lemma_units(n, 3600, rest);
    lemma_units(n, 86400, rest);
    lemma_units(n, 604800, rest);
    lemma_units(n, 2592000, rest);
    lemma_units(n, 31536000, rest);
}

/// So many units and less than one more are so many units.
proof fn lemma_units(n: nat, unit: nat, rest: nat)
    requires
        unit > 0,
    ensures
        rest < unit ==> (n * unit + rest) / unit == n,
{
    assert(rest < unit ==> (n * unit + rest) / unit == n) by (nonlinear_arith)
        requires
            unit > 0,
    ;
}

/// The age of an image is the time since it was made; one that was made later than now is new, and
/// one of which either time is missing has an unknown age.
pub proof fn law_an_image_is_as_old_as_the_time_since(made: i64, now: u64)
    ensures
        0 <= made <= now ==> created_view(Some(made), Some(now)) == age_view((now - made) as nat),
        made < 0 ==> created_view(Some(made), Some(now)) == age_view(now as nat),
        made > now ==> created_view(Some(made), Some(now)) == "just now"@,
        created_view(None, Some(now)) == "<unknown>"@,
        created_view(Some(made), None) == "<unknown>"@,
{
}

/// An image has a row for each of its names, in their order, and one without a name where it has
/// none.
pub proof fn law_an_image_has_a_row_for_each_name(
    image: ImageSummary,
    now: Option<u64>,
    size: Seq<char>,
    i: int,
)
    ensures
        ({
            let rows = image_rows_view(image, now, size);
            &&& image.repo_tags@.len() > 0 ==> rows.len() == image.repo_tags@.len()
            &&& image.repo_tags@.len() == 0 ==> rows.len() == 1 && rows[0].repository == "<none>"@
                && rows[0].tag == "<none>"@
            &&& 0 <= i < image.repo_tags@.len() ==> (rows[i].repository, rows[i].tag)
                == repo_tag_view(image.repo_tags@[i]@)
            &&& 0 <= i < rows.len() ==> rows[i].image_id == short_id_view(image.id@)
                && rows[i].created == created_view(image.created, now) && rows[i].size == size
        }),
{
    if 0 <= i < image.repo_tags@.len() {
        assert(texts(image.repo_tags@)[i] == image.repo_tags@[i]@);
    }
}

/// A column is as wide as its widest cell and its least width, and no wider.
pub proof fn law_a_column_fits_its_cells(cells: Seq<Seq<char>>, least: int)
    ensures
        column_width(cells, least) >= least,
        forall|i: int|
            0 <= i < cells.len() ==> byte_len(#[trigger] cells[i]) <= column_width(cells, least),
        column_width(cells, least) == least || exists|i: int|
            0 <= i < cells.len() && byte_len(#[trigger] cells[i]) == column_width(cells, least),
    decreases cells.len(),
{
    if cells.len() > 0 {
        let front = cells.drop_last();
        law_a_column_fits_its_cells(front, least);
        assert forall|i: int| 0 <= i < cells.len() implies byte_len(#[trigger] cells[i])
            <= column_width(cells, least) by {
            if i < front.len() {
                assert(front[i] == cells[i]);
            }
        }
        if column_width(cells, least) == column_width(front, least) {
            if column_width(front, least) != least {
                let i = choose|i: int|
                    0 <= i < front.len() && byte_len(#[trigger] front[i]) == column_width(
                        front,
                        least,
                    );
                assert(byte_len(cells[i]) == column_width(cells, least));
            }
        } else {
            assert(byte_len(cells[cells.len() - 1]) == column_width(cells, least));
        }
    }
}

/// In a line of the table every column starts behind the whole width of the one before it and two
/// spaces, where the cells fit their columns.
pub proof fn law_cells_stand_in_their_columns(row: ImageRowView, w: Widths)
    requires
        row.repository.len() <= w.repository,
        row.tag.len() <= w.tag,
        row.image_id.len() <= w.image_id,
        row.created.len() <= w.created,
    ensures
        ({
            let line = row_line(row, w);
            let tag = w.repository + 2;
            let image_id = tag + w.tag + 2;
            let created = image_id + w.image_id + 2;
            let size = created + w.created + 2;
            &&& line.len() == size + row.size.len()
            &&& line.subrange(0, row.repository.len() as int) == row.repository
            &&& line.subrange(tag, tag + row.tag.len()) == row.tag
            &&& line.subrange(image_id, image_id + row.image_id.len()) == row.image_id
            &&& line.subrange(created, created + row.created.len()) == row.created
            &&& line.skip(size) == row.size
            &&& forall|i: int|
                row.repository.len() <= i < tag || tag + row.tag.len() <= i < image_id || image_id
                    + row.image_id.len() <= i < created || created + row.created.len() <= i < size
                    ==> #[trigger] line[i] == ' '
        }),
{
    reveal_strlit("  ");
    let line = row_line(row, w);
    let a = padded(row.repository, w.repository as int) + "  "@;
    let b = padded(row.tag, w.tag as int) + "  "@;
    let c = padded(row.image_id, w.image_id as int) + "  "@;
    let d = padded(row.created, w.created as int) + "  "@;
    assert(a.len() == w.repository + 2);
    assert(b.len() == w.tag + 2);
    assert(c.len() == w.image_id + 2);
    assert(d.len() == w.created + 2);
    assert(line =~= a + b + c + d + row.size);
    assert forall|i: int| row.repository.len() <= i < a.len() implies #[trigger] a[i] == ' ' by {}
    assert forall|i: int| row.tag.len() <= i < b.len() implies #[trigger] b[i] == ' ' by {}
    assert forall|i: int| row.image_id.len() <= i < c.len() implies #[trigger] c[i] == ' ' by {}
    assert forall|i: int| row.created.len() <= i < d.len() implies #[trigger] d[i] == ' ' by {}
    let tag = w.repository + 2;
    let image_id = tag + w.tag + 2;
    let created = image_id + w.image_id + 2;
    let size = created + w.created + 2;
    assert(line.subrange(0, row.repository.len() as int) =~= row.repository);
    assert(line.subrange(tag, tag + row.tag.len()) =~= row.tag);
    assert(line.subrange(image_id, image_id + row.image_id.len()) =~= row.image_id);
    assert(line.subrange(created, created + row.created.len()) =~= row.created);
    assert(line.skip(size) =~= row.size);
    assert forall|i: int|
        row.repository.len() <= i < tag || tag + row.tag.len() <= i < image_id || image_id
            + row.image_id.len() <= i < created || created + row.created.len() <= i
            < size implies #[trigger] line[i] == ' ' by {
        if i < tag {
            assert(line[i] == a[i]);
        } else if i < image_id {
            assert(line[i] == b[i - tag]);
        } else if i < created {
            assert(line[i] == c[i - image_id]);
        } else {
            assert(line[i] == d[i - created]);
        }
    }
}

} // verus!
