//! How yt-dlp is invoked, and how its output lines are read.
use vstd::prelude::*;
use crate::aria2::strings_of;
use crate::paths::{file_name, file_name_exec, has_root, join_path, join_path_exec};
use crate::store::opt_view;
use crate::text::{
    before_char, before_char_exec, chars_eq, chars_of, concat, is_white_space, lit, matches_at,
    occurs_at, slice, starts_with, string_of, trim, trim_chars, white_space, TrimSet,
};
use crate::version::{dotted_run_end, lemma_run_ends};

verus! {

/// How yt-dlp is run.
#[derive(Debug, Clone)]
pub struct YtdlpRunner {
    pub binary: String,
    pub ffmpeg_path: String,
    pub aria2_secret: String,
    pub use_aria2: bool,
    pub quality: String,
    pub cookies_file: Option<String>,
}

/// One download by yt-dlp.
#[derive(Debug, Clone)]
pub struct DownloadOpts {
    pub url: String,
    pub output_dir: String,
    pub referer: Option<String>,
    pub quality: Option<String>,
}

/// The yt-dlp format selector for a quality setting; an unknown setting is
/// taken as a format selector of its own.
pub open spec fn quality_format_spec(q: Seq<char>) -> Seq<char> {
    if q == "best"@ {
        "bestvideo+bestaudio/best"@
    } else if q == "1080"@ || q == "1080p"@ {
        "bestvideo[height<=1080]+bestaudio/best[height<=1080]"@
    } else if q == "720"@ || q == "720p"@ {
        "bestvideo[height<=720]+bestaudio/best[height<=720]"@
    } else if q == "480"@ || q == "480p"@ {
        "bestvideo[height<=480]+bestaudio/best[height<=480]"@
    } else if q == "audio"@ {
        "bestaudio/best"@
    } else {
        q
    }
}

pub fn quality_format(quality: &str) -> (r: String)
    ensures
        r@ == quality_format_spec(quality@),
{
    let q = chars_of(quality);
    if chars_eq(&q, &lit("best")) {
        "bestvideo+bestaudio/best".to_string()
    } else if chars_eq(&q, &lit("1080")) || chars_eq(&q, &lit("1080p")) {
        "bestvideo[height<=1080]+bestaudio/best[height<=1080]".to_string()
    } else if chars_eq(&q, &lit("720")) || chars_eq(&q, &lit("720p")) {
        "bestvideo[height<=720]+bestaudio/best[height<=720]".to_string()
    } else if chars_eq(&q, &lit("480")) || chars_eq(&q, &lit("480p")) {
        "bestvideo[height<=480]+bestaudio/best[height<=480]".to_string()
    } else if chars_eq(&q, &lit("audio")) {
        "bestaudio/best".to_string()
    } else {
        string_of(&q)
    }
}

/// The output template: the title and extension, in the output directory.
pub open spec fn output_template(dir: Seq<char>) -> Seq<char> {
    join_path(dir, "%(title)s.%(ext)s"@)
}

/// The arguments that yt-dlp hands on to aria2 when aria2 downloads for it.
pub open spec fn aria2_downloader_args(secret: Seq<char>) -> Seq<char> {
    if secret.len() == 0 {
        "-x 16 -s 16 -k 1M"@
    } else {
        "-x 16 -s 16 -k 1M"@ + " --rpc-secret="@ + secret
    }
}

/// yt-dlp's command line for a download: fixed options, the format, the
/// output template, then aria2 as external downloader when asked for, the
/// referer and the cookies file when given, and last the URL.
pub open spec fn download_args_spec(r: YtdlpRunner, o: DownloadOpts) -> Seq<Seq<char>> {
    let quality = match o.quality {
        Some(q) => q@,
        None => r.quality@,
    };
    let base = seq![
        "--newline"@,
        "--no-playlist"@,
        "--continue"@,
        "-f"@,
        quality_format_spec(quality),
        "-o"@,
        output_template(o.output_dir@),
        "--print"@,
        "after_move:filepath"@,
    ];
    let with_aria2 = if r.use_aria2 {
        base + seq![
            "--external-downloader"@,
            "aria2c"@,
            "--external-downloader-args"@,
            aria2_downloader_args(r.aria2_secret@),
        ]
    } else {
        base
    };
    let with_referer = match o.referer {
        Some(x) => with_aria2 + seq!["--referer"@, x@],
        None => with_aria2,
    };
    let with_cookies = match r.cookies_file {
        Some(c) => if c@.len() > 0 {
            with_referer + seq!["--cookies"@, c@]
        } else {
            with_referer
        },
        None => with_referer,
    };
    with_cookies.push(o.url@)
}

fn push_str(v: &mut Vec<String>, s: &str)
    ensures
        strings_of(final(v)@) == strings_of(old(v)@).push(s@),
{
    let ghost before = v@;
    v.push(s.to_string());
    assert(strings_of(v@) =~= strings_of(before).push(s@));
}

fn push_chars(v: &mut Vec<String>, s: &Vec<char>)
    ensures
        strings_of(final(v)@) == strings_of(old(v)@).push(s@),
{
    let ghost before = v@;
    v.push(string_of(s));
    assert(strings_of(v@) =~= strings_of(before).push(s@));
}

impl YtdlpRunner {
    /// The command-line arguments for a download.
    pub fn download_args(&self, opts: &DownloadOpts) -> (r: Vec<String>)
        ensures
            strings_of(r@) == download_args_spec(*self, *opts),
    {
        let quality = match &opts.quality {
            Some(q) => chars_of(q.as_str()),
            None => chars_of(self.quality.as_str()),
        };
        let format = quality_format(string_of(&quality).as_str());
        let template = join_path_exec(&chars_of(opts.output_dir.as_str()), &lit("%(title)s.%(ext)s"));
        let mut args: Vec<String> = Vec::new();
        push_str(&mut args, "--newline");
        push_str(&mut args, "--no-playlist");
        push_str(&mut args, "--continue");
        push_str(&mut args, "-f");
        push_chars(&mut args, &chars_of(format.as_str()));
        push_str(&mut args, "-o");
        push_chars(&mut args, &template);
        push_str(&mut args, "--print");
        push_str(&mut args, "after_move:filepath");
        let ghost base = strings_of(args@);
        if self.use_aria2 {
            let secret = chars_of(self.aria2_secret.as_str());
            let mut a = lit("-x 16 -s 16 -k 1M");
            if secret.len() > 0 {
                a = concat(&concat(&a, &lit(" --rpc-secret=")), &secret);
            }
            push_str(&mut args, "--external-downloader");
            push_str(&mut args, "aria2c");
            push_str(&mut args, "--external-downloader-args");
            push_chars(&mut args, &a);
        }
        let ghost wa = strings_of(args@);
        match &opts.referer {
            Some(x) => {
                push_str(&mut args, "--referer");
                push_str(&mut args, x.as_str());
            },
            None => {},
        }
        let ghost wr = strings_of(args@);
        match &self.cookies_file {
            Some(c) => {
                let cc = chars_of(c.as_str());
                if cc.len() > 0 {
                    push_str(&mut args, "--cookies");
                    push_chars(&mut args, &cc);
                }
            },
            None => {},
        }
        push_str(&mut args, opts.url.as_str());
        proof {
            let spec_q = match &opts.quality {
                Some(q) => q@,
                None => self.quality@,
            };
            assert(quality@ == spec_q);
            assert(base =~= seq![
                "--newline"@,
                "--no-playlist"@,
                "--continue"@,
                "-f"@,
                quality_format_spec(spec_q),
                "-o"@,
                output_template(opts.output_dir@),
                "--print"@,
                "after_move:filepath"@,
            ]);
        }
        assert(strings_of(args@) =~= download_args_spec(*self, *opts));
        args
    }
}

/// The first line of a program's output, trimmed (empty when there is no
/// output).
pub open spec fn first_line_trimmed_spec(text: Seq<char>) -> Seq<char> {
    trim(before_char(text, '\n'), TrimSet::WhiteSpace)
}

pub fn first_line_trimmed(text: &str) -> (r: String)
    ensures
        r@ == first_line_trimmed_spec(text@),
{
    string_of(&trim_chars(&before_char_exec(&chars_of(text), '\n'), TrimSet::WhiteSpace))
}

// ---------------------------------------------------------------------------
// Progress lines
// ---------------------------------------------------------------------------

/// The end of the run of white space that starts at `j`.
pub open spec fn space_run_end(s: Seq<char>, j: int) -> int
    decreases s.len() - j,
{
    if 0 <= j < s.len() && is_white_space(s[j]) {
        space_run_end(s, j + 1)
    } else {
        j
    }
}

pub proof fn lemma_space_run_end(s: Seq<char>, j: int)
    requires
        0 <= j <= s.len(),
    ensures
        j <= space_run_end(s, j) <= s.len(),
    decreases s.len() - j,
{
    if j < s.len() {
        lemma_space_run_end(s, j + 1);
    }
}

fn space_run_end_exec(s: &Vec<char>, j: usize) -> (r: usize)
    requires
        j <= s@.len(),
    ensures
        r == space_run_end(s@, j as int),
        j <= r <= s@.len(),
{
    let mut k = j;
    while k < s.len() && white_space(s[k])
        invariant
            j <= k <= s@.len(),
            space_run_end(s@, j as int) == space_run_end(s@, k as int),
        decreases s.len() - k,
    {
        k = k + 1;
    }
    k
}

/// The length of the size unit (`KiB`, `MiB`, `GiB`, `TiB` or `B`) at `j`.
pub open spec fn unit_at(s: Seq<char>, j: int) -> Option<int> {
    if occurs_at(s, "KiB"@, j) || occurs_at(s, "MiB"@, j) || occurs_at(s, "GiB"@, j) || occurs_at(
        s,
        "TiB"@,
        j,
    ) {
        Some(3)
    } else if occurs_at(s, "B"@, j) {
        Some(1)
    } else {
        None
    }
}

fn unit_at_exec(s: &Vec<char>, j: usize) -> (r: Option<usize>)
    ensures
        match unit_at(s@, j as int) {
            Some(n) => r == Some(n as usize),
            None => r is None,
        },
{
    if matches_at(s, &lit("KiB"), j) || matches_at(s, &lit("MiB"), j) || matches_at(
        s,
        &lit("GiB"),
        j,
    ) || matches_at(s, &lit("TiB"), j) {
        Some(3)
    } else if matches_at(s, &lit("B"), j) {
        Some(1)
    } else {
        None
    }
}

/// The pieces of a progress line: percentage, total size and its unit,
/// speed and its unit, each as written.
#[derive(Debug, Clone)]
pub struct ProgressCaps {
    pub percent: String,
    pub total: String,
    pub total_unit: String,
    pub speed: String,
    pub speed_unit: String,
}

pub open spec fn caps_view(c: ProgressCaps) -> (Seq<char>, Seq<char>, Seq<char>, Seq<char>, Seq<char>) {
    (c.percent@, c.total@, c.total_unit@, c.speed@, c.speed_unit@)
}

/// The progress pattern
/// `[download] <pct>% of <size><unit> at <speed><unit>/s`, with runs of
/// white space between the words and digits and dots in the numbers,
/// matched at `p`: the pieces it captures.
pub open spec fn progress_at(s: Seq<char>, p: int) -> Option<
    (Seq<char>, Seq<char>, Seq<char>, Seq<char>, Seq<char>),
> {
    if !occurs_at(s, "[download]"@, p) {
        None
    } else {
        let a = p + 10;
        let b = space_run_end(s, a);
        let c = dotted_run_end(s, b);
        if !(b > a && c > b && c < s.len() && s[c] == '%') {
            None
        } else {
            let d = space_run_end(s, c + 1);
            if !(d > c + 1 && occurs_at(s, "of"@, d)) {
                None
            } else {
                let e = space_run_end(s, d + 2);
                let f = dotted_run_end(s, e);
                if !(e > d + 2 && f > e && unit_at(s, f) is Some) {
                    None
                } else {
                    let f2 = f + unit_at(s, f).unwrap();
                    let g = space_run_end(s, f2);
                    if !(g > f2 && occurs_at(s, "at"@, g)) {
                        None
                    } else {
                        let h = space_run_end(s, g + 2);
                        let i = dotted_run_end(s, h);
                        if !(h > g + 2 && i > h && unit_at(s, i) is Some) {
                            None
                        } else {
                            let i2 = i + unit_at(s, i).unwrap();
                            if !occurs_at(s, "/s"@, i2) {
                                None
                            } else {
                                Some(
                                    (
                                        s.subrange(b, c),
                                        s.subrange(e, f),
                                        s.subrange(f, f2),
                                        s.subrange(h, i),
                                        s.subrange(i, i2),
                                    ),
                                )
                            }
                        }
                    }
                }
            }
        }
    }
}

/// The leftmost match of the progress pattern at or after `p`.
pub open spec fn progress_from(s: Seq<char>, p: int) -> Option<
    (Seq<char>, Seq<char>, Seq<char>, Seq<char>, Seq<char>),
>
    decreases s.len() - p,
{
    if p < 0 || p >= s.len() {
        None
    } else {
        match progress_at(s, p) {
            Some(c) => Some(c),
            None => progress_from(s, p + 1),
        }
    }
}

fn progress_at_exec(s: &Vec<char>, p: usize) -> (r: Option<ProgressCaps>)
    requires
        p <= s@.len(),
    ensures
        match progress_at(s@, p as int) {
            Some(c) => r matches Some(x) && caps_view(x) == c,
            None => r is None,
        },
{
    proof {
        reveal_strlit("[download]");
        reveal_strlit("of");
        reveal_strlit("at");
        reveal_strlit("/s");
        reveal_strlit("KiB");
        reveal_strlit("MiB");
        reveal_strlit("GiB");
        reveal_strlit("TiB");
        reveal_strlit("B");
    }
    let pat = lit("[download]");
    assert(pat@.len() == 10);
    if !matches_at(s, &pat, p) {
        return None;
    }
    let n = s.len();
    assert(p + 10 <= n);
    let a = p + 10;
    let b = space_run_end_exec(s, a);
    proof {
        lemma_run_ends(s@, b as int);
    }
    let c = crate::version::dotted_run_end_exec(s, b);
    if !(b > a && c > b && c < s.len() && s[c] == '%') {
        return None;
    }
    let d = space_run_end_exec(s, c + 1);
    if !(d > c + 1 && matches_at(s, &lit("of"), d)) {
        return None;
    }
    let e = space_run_end_exec(s, d + 2);
    proof {
        lemma_run_ends(s@, e as int);
    }
    let f = crate::version::dotted_run_end_exec(s, e);
    if !(e > d + 2 && f > e) {
        return None;
    }
    let u1 = match unit_at_exec(s, f) {
        Some(u) => u,
        None => {
            return None;
        },
    };
    let f2 = f + u1;
    let g = space_run_end_exec(s, f2);
    if !(g > f2 && matches_at(s, &lit("at"), g)) {
        return None;
    }
    let h = space_run_end_exec(s, g + 2);
    proof {
        lemma_run_ends(s@, h as int);
    }
    let i = crate::version::dotted_run_end_exec(s, h);
    if !(h > g + 2 && i > h) {
        return None;
    }
    let u2 = match unit_at_exec(s, i) {
        Some(u) => u,
        None => {
            return None;
        },
    };
    let i2 = i + u2;
    if !matches_at(s, &lit("/s"), i2) {
        return None;
    }
    Some(
        ProgressCaps {
            percent: string_of(&slice(s, b, c)),
            total: string_of(&slice(s, e, f)),
            total_unit: string_of(&slice(s, f, f2)),
            speed: string_of(&slice(s, h, i)),
            speed_unit: string_of(&slice(s, i, i2)),
        },
    )
}

/// Reads the progress pattern out of a yt-dlp output line.
pub fn progress_captures(line: &str) -> (r: Option<ProgressCaps>)
    ensures
        match progress_from(line@, 0) {
            Some(c) => r matches Some(x) && caps_view(x) == c,
            None => r is None,
        },
{
    let s = chars_of(line);
    let mut p: usize = 0;
    while p < s.len()
        invariant
            p <= s@.len(),
            s@ == line@,
            progress_from(s@, 0) == progress_from(s@, p as int),
        decreases s.len() - p,
    {
        match progress_at_exec(&s, p) {
            Some(c) => {
                return Some(c);
            },
            None => {},
        }
        p = p + 1;
    }
    None
}

/// What a line of yt-dlp's output asks of the download.
#[derive(Debug, Clone)]
pub enum LineAction {
    /// Nothing to report.
    Nothing,
    /// yt-dlp printed the final path of the file: report it done, under
    /// this file name.
    Finished { file_name: String },
    /// A progress line: report it, with the final file's name when it is
    /// already known.
    Progress { caps: ProgressCaps, file_name: Option<String> },
}

/// The file name of a path, or the empty text when it has none.
pub open spec fn file_name_or_empty(p: Seq<char>) -> Seq<char> {
    match file_name(p) {
        Some(n) => n,
        None => Seq::empty(),
    }
}

/// How one output line changes the known final file and what it reports:
/// an empty line nothing; a line that is an absolute path, not starting
/// with `[`, is the final file; a `[download]` line that matches the
/// progress pattern is progress; any other line nothing.
pub open spec fn line_step_spec(final_file: Option<Seq<char>>, line: Seq<char>) -> (
    Option<Seq<char>>,
    Option<Option<Seq<char>>>,
    Option<(Seq<char>, Seq<char>, Seq<char>, Seq<char>, Seq<char>)>,
) {
    if line.len() == 0 {
        (final_file, None, None)
    } else if line[0] != '[' && has_root(line) {
        (Some(line), Some(Some(file_name_or_empty(line))), None)
    } else if crate::text::has_prefix(line, "[download]"@) && progress_from(line, 0) is Some {
        let name = match final_file {
            Some(f) => file_name(f),
            None => None,
        };
        (final_file, Some(name), progress_from(line, 0))
    } else {
        (final_file, None, None)
    }
}

pub open spec fn action_view(a: LineAction) -> (
    Option<Option<Seq<char>>>,
    Option<(Seq<char>, Seq<char>, Seq<char>, Seq<char>, Seq<char>)>,
) {
    match a {
        LineAction::Nothing => (None, None),
        LineAction::Finished { file_name } => (Some(Some(file_name@)), None),
        LineAction::Progress { caps, file_name } => (Some(opt_view(file_name)), Some(caps_view(caps))),
    }
}

/// Takes one line of yt-dlp's output.
pub fn on_output_line(final_file: &mut Option<String>, line: &str) -> (r: LineAction)
    ensures
        ({
            let (f, name, caps) = line_step_spec(opt_view(*old(final_file)), line@);
            &&& opt_view(*final(final_file)) == f
            &&& match name {
                None => r is Nothing,
                Some(n) => match caps {
                    None => r matches LineAction::Finished { file_name } && Some(file_name@) == n,
                    Some(c) => action_view(r) == (Some(n), Some(c)),
                },
            }
        }),
{
    let l = chars_of(line);
    if l.len() == 0 {
        return LineAction::Nothing;
    }
    if l[0] != '[' && l[0] == '/' {
        let name = match file_name_exec(&l) {
            Some(n) => string_of(&n),
            None => String::new(),
        };
        *final_file = Some(string_of(&l));
        return LineAction::Finished { file_name: name };
    }
    if starts_with(&l, &lit("[download]")) {
        match progress_captures(line) {
            Some(caps) => {
                let name = match final_file {
                    Some(f) => match file_name_exec(&chars_of(f.as_str())) {
                        Some(n) => Some(string_of(&n)),
                        None => None,
                    },
                    None => None,
                };
                return LineAction::Progress { caps, file_name: name };
            },
            None => {},
        }
    }
    LineAction::Nothing
}

/// Where the referer option stands in yt-dlp's arguments: after the fixed
/// options, the format and output template, and aria2's options when
/// aria2 downloads.
pub open spec fn referer_slot(r: YtdlpRunner) -> int {
    if r.use_aria2 {
        13
    } else {
        9
    }
}

/// The referer is passed exactly when one is given: with a referer `x`,
/// `--referer x` stands at its slot, and taking that pair out gives the
/// arguments for the same download without a referer.
pub proof fn law_referer_passed_iff_given(r: YtdlpRunner, o: DownloadOpts)
    ensures
        o.referer matches Some(x) ==> download_args_spec(r, o)[referer_slot(r)] == "--referer"@
            && download_args_spec(r, o)[referer_slot(r) + 1] == x@,
        o.referer is Some ==> download_args_spec(r, o) == download_args_spec(
            r,
            DownloadOpts { referer: None, ..o },
        ).take(referer_slot(r)) + seq!["--referer"@, o.referer.unwrap()@] + download_args_spec(
            r,
            DownloadOpts { referer: None, ..o },
        ).skip(referer_slot(r)),
{
    if let Some(x) = o.referer {
        let a = download_args_spec(r, o);
        let b = download_args_spec(r, DownloadOpts { referer: None, ..o });
        let p = referer_slot(r);
        assert(a =~= b.take(p) + seq!["--referer"@, x@] + b.skip(p));
    }
}

/// The height presets, without their optional `p`.
pub open spec fn height_presets() -> Seq<Seq<char>> {
    seq!["1080"@, "720"@, "480"@]
}

/// Each height preset `N` selects the same format whether written `N` or
/// `Np`, and that format caps both the video it merges and the fallback at
/// `N`: it starts with `bestvideo[height<=N]` and ends with
/// `/best[height<=N]`.
pub proof fn law_height_presets(k: int)
    requires
        0 <= k < height_presets().len(),
    ensures
        quality_format_spec(height_presets()[k] + "p"@) == quality_format_spec(height_presets()[k]),
        crate::text::has_prefix(
            quality_format_spec(height_presets()[k]),
            "bestvideo[height<="@ + height_presets()[k] + "]"@,
        ),
        crate::text::has_suffix(
            quality_format_spec(height_presets()[k]),
            "/best[height<="@ + height_presets()[k] + "]"@,
        ),
{
    reveal_strlit("1080");
    reveal_strlit("720");
    reveal_strlit("480");
    reveal_strlit("1080p");
    reveal_strlit("720p");
    reveal_strlit("480p");
    reveal_strlit("p");
    reveal_strlit("]");
    reveal_strlit("best");
    reveal_strlit("audio");
    reveal_strlit("bestvideo[height<=");
    reveal_strlit("/best[height<=");
    reveal_strlit("bestvideo[height<=1080]+bestaudio/best[height<=1080]");
    reveal_strlit("bestvideo[height<=720]+bestaudio/best[height<=720]");
    reveal_strlit("bestvideo[height<=480]+bestaudio/best[height<=480]");
    let n = height_presets()[k];
    let f = quality_format_spec(n);
    if k == 0 {
        assert(n == "1080"@);
        assert(n + "p"@ =~= "1080p"@);
        assert("1080"@[0] != "best"@[0]);
        assert(n != "best"@);
        assert("1080p"@ != "best"@);
        assert(f == "bestvideo[height<=1080]+bestaudio/best[height<=1080]"@);
        assert(f.take(("bestvideo[height<="@ + n + "]"@).len() as int) =~= "bestvideo[height<="@ + n
            + "]"@);
        assert(f.skip(f.len() - ("/best[height<="@ + n + "]"@).len()) =~= "/best[height<="@ + n
            + "]"@);
    } else if k == 1 {
        assert(n == "720"@);
        assert(n + "p"@ =~= "720p"@);
        assert("720p"@[0] != "best"@[0] && "720p"@[0] != "1080"@[0]);
        assert(n != "best"@ && n != "1080"@ && n != "1080p"@);
        assert("720p"@ != "best"@ && "720p"@ != "1080"@ && "720p"@ != "1080p"@);
        assert(f == "bestvideo[height<=720]+bestaudio/best[height<=720]"@);
        assert(f.take(("bestvideo[height<="@ + n + "]"@).len() as int) =~= "bestvideo[height<="@ + n
            + "]"@);
        assert(f.skip(f.len() - ("/best[height<="@ + n + "]"@).len()) =~= "/best[height<="@ + n
            + "]"@);
    } else {
        assert(n == "480"@);
        assert(n + "p"@ =~= "480p"@);
        assert("480"@[0] != "720"@[0] && "480p"@[0] != "best"@[0] && "480p"@[0] != "1080"@[0]
            && "480p"@[0] != "720p"@[0]);
        assert(n != "best"@ && n != "1080"@ && n != "1080p"@ && n != "720"@ && n != "720p"@);
        assert("480p"@ != "best"@ && "480p"@ != "1080"@ && "480p"@ != "1080p"@ && "480p"@ != "720"@
            && "480p"@ != "720p"@);
        assert(f == "bestvideo[height<=480]+bestaudio/best[height<=480]"@);
        assert(f.take(("bestvideo[height<="@ + n + "]"@).len() as int) =~= "bestvideo[height<="@ + n
            + "]"@);
        assert(f.skip(f.len() - ("/best[height<="@ + n + "]"@).len()) =~= "/best[height<="@ + n
            + "]"@);
    }
}

/// The other presets: `best` merges the best video with the best audio,
/// `audio` selects audio alone (no video stream), and any setting that is
/// no preset is handed to yt-dlp as a format selector of its own.
pub proof fn law_other_quality_settings(q: Seq<char>)
    ensures
        crate::text::has_prefix(quality_format_spec("best"@), "bestvideo+bestaudio"@),
        crate::text::has_prefix(quality_format_spec("audio"@), "bestaudio"@),
        !crate::text::contains(quality_format_spec("audio"@), "video"@),
        q != "best"@ && q != "audio"@ && (forall|k: int|
            0 <= k < height_presets().len() ==> q != #[trigger] height_presets()[k] && q
                != height_presets()[k] + "p"@) ==> quality_format_spec(q) == q,
{
    reveal_strlit("best");
    reveal_strlit("audio");
    reveal_strlit("video");
    reveal_strlit("1080");
    reveal_strlit("720");
    reveal_strlit("480");
    reveal_strlit("1080p");
    reveal_strlit("720p");
    reveal_strlit("480p");
    reveal_strlit("p");
    reveal_strlit("bestvideo+bestaudio");
    reveal_strlit("bestaudio");
    reveal_strlit("bestvideo+bestaudio/best");
    reveal_strlit("bestaudio/best");
    assert("audio"@[0] != "best"@[0] && "audio"@.len() != "1080"@.len() && "audio"@.len()
        != "720"@.len());
    assert("audio"@[0] != "1080p"@[0] && "audio"@[0] != "720p"@[0] && "audio"@[0] != "480p"@[0]);
    assert("best"@[0] != "1080"@[0]);
    let f = quality_format_spec("best"@);
    assert(f == "bestvideo+bestaudio/best"@);
    assert(f.take(19) =~= "bestvideo+bestaudio"@);
    let g = quality_format_spec("audio"@);
    assert(g == "bestaudio/best"@);
    assert(g.take(9) =~= "bestaudio"@);
    assert forall|j: int| !occurs_at(g, "video"@, j) by {
        if occurs_at(g, "video"@, j) {
            assert(g.subrange(j, j + 5)[0] == g[j]);
            assert(g[j] == 'v');
        }
    }
    if q != "best"@ && q != "audio"@ && (forall|k: int|
        0 <= k < height_presets().len() ==> q != #[trigger] height_presets()[k] && q
            != height_presets()[k] + "p"@) {
        assert(height_presets()[0] == "1080"@);
        assert(height_presets()[1] == "720"@);
        assert(height_presets()[2] == "480"@);
        assert("1080"@ + "p"@ =~= "1080p"@);
        assert("720"@ + "p"@ =~= "720p"@);
        assert("480"@ + "p"@ =~= "480p"@);
    }
}

} // verus!
