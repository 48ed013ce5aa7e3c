//! Nested archive class locator: recursive search through possibly-nested
//! container archives for members whose base name contains a derived
//! fragment, yielding one manifest record (and the member's bytes) per match.

use vstd::prelude::*;

use crate::HotSwapError;
use crate::text::base_name;
use crate::text::base_name_of;
use crate::text::before_char;
use crate::text::contains_fragment;
use crate::text::cut_at_char;
use crate::text::has_suffix;
use crate::text::path_join;
use crate::text::path_join_spec;
use crate::text::str_contains_fragment;
use crate::text::str_has_suffix;
use std::io::Cursor;
use std::io::Read;
use zip::read::ZipArchive;

verus! {

/// One manifest record for a located member.
pub struct ClassInfoDTO {
    /// Identifier of the top-level container the whole walk started from.
    pub parent_jar_file_name: String,
    /// Logical path of the container in which the match was found.
    pub jar_file_name: String,
    /// The member's own name, without any path component.
    pub class_file_name: String,
    /// Full logical path: containing path joined with the member's name.
    pub class_file_path: String,
    /// Filled in later by the process-list collaborator; starts empty.
    pub java_process_list_str: String,
}

/// Mathematical image of a `ClassInfoDTO`.
pub struct ClassInfoView {
    pub parent_jar_file_name: Seq<char>,
    pub jar_file_name: Seq<char>,
    pub class_file_name: Seq<char>,
    pub class_file_path: Seq<char>,
    pub java_process_list_str: Seq<char>,
}

impl View for ClassInfoDTO {
    type V = ClassInfoView;

    open spec fn view(&self) -> ClassInfoView {
        ClassInfoView {
            parent_jar_file_name: self.parent_jar_file_name@,
            jar_file_name: self.jar_file_name@,
            class_file_name: self.class_file_name@,
            class_file_path: self.class_file_path@,
            java_process_list_str: self.java_process_list_str@,
        }
    }
}

/// A located member: its manifest record together with its bytes, which the
/// caller writes to the flat output location.
pub struct ExtractedClass {
    pub info: ClassInfoDTO,
    pub data: Vec<u8>,
}

/// Mathematical image of an `ExtractedClass`.
pub struct ExtractedClassView {
    pub info: ClassInfoView,
    pub data: Seq<u8>,
}

impl View for ExtractedClass {
    type V = ExtractedClassView;

    open spec fn view(&self) -> ExtractedClassView {
        ExtractedClassView { info: self.info@, data: self.data@ }
    }
}

/// The images of a run of located members.
pub open spec fn views_of(v: Seq<ExtractedClass>) -> Seq<ExtractedClassView> {
    v.map_values(|e: ExtractedClass| e@)
}

#[verifier::external_type_specification]
#[verifier::external_body]
#[verifier::reject_recursive_types(T)]
pub struct ExCursor<T>(Cursor<T>);

#[verifier::external_type_specification]
#[verifier::external_body]
#[verifier::reject_recursive_types(R)]
pub struct ExZipArchive<R>(ZipArchive<R>);

/// Whether `ZipArchive::new` accepts these bytes as a container.
pub uninterp spec fn zip_valid(bytes: Seq<u8>) -> bool;

/// The members of the container these bytes form: for each, its stored name
/// and its uncompressed contents, in central-directory order.
pub uninterp spec fn zip_entries(bytes: Seq<u8>) -> Seq<(Seq<char>, Seq<u8>)>;

/// Whether the member at this index of the container these bytes form can be
/// read out in full. On an in-memory archive this is decided by the bytes
/// and the index alone: a member with an unsupported compression method or
/// corrupt compressed data never reads, an intact one always does.
pub uninterp spec fn zip_entry_ok(bytes: Seq<u8>, i: int) -> bool;

/// The bytes an open archive handle was opened over.
pub uninterp spec fn archive_bytes(a: ZipArchive<Cursor<Vec<u8>>>) -> Seq<u8>;

/// Relies on zip's `ZipArchive::new`: it parses the central directory of the
/// given bytes, succeeding or failing on the bytes alone, and on success the
/// handle holds exactly those bytes behind an in-memory cursor.
#[verifier::external_body]
fn open_archive(bytes: &Vec<u8>) -> (r: Option<ZipArchive<Cursor<Vec<u8>>>>)
    ensures
        r is Some <==> zip_valid(bytes@),
        r matches Some(a) ==> archive_bytes(a) == bytes@,
{
    ZipArchive::new(Cursor::new(bytes.clone())).ok()
}

/// Relies on zip's `ZipArchive::len`: the number of members in the archive.
#[verifier::external_body]
fn archive_len(a: &ZipArchive<Cursor<Vec<u8>>>) -> (r: usize)
    ensures
        r == zip_entries(archive_bytes(*a)).len(),
{
    a.len()
}

/// Relies on zip's `ZipArchive::name_for_index`: the stored name of the
/// member at a valid index, already decoded to text.
#[verifier::external_body]
fn entry_name(a: &ZipArchive<Cursor<Vec<u8>>>, i: usize) -> (r: String)
    requires
        i < zip_entries(archive_bytes(*a)).len(),
    ensures
        r@ == zip_entries(archive_bytes(*a))[i as int].0,
{
    match a.name_for_index(i) {
        Some(n) => n.to_owned(),
        None => String::new(),
    }
}

/// Relies on zip's `ZipArchive::by_index` and `Read::read_to_end`: on an
/// in-memory archive, reading the member at a valid index succeeds or fails
/// on the bytes and the index alone, a returned buffer is the member's
/// uncompressed contents, and reading moves only the cursor, never the
/// member table or the underlying bytes.
#[verifier::external_body]
fn entry_data(a: &mut ZipArchive<Cursor<Vec<u8>>>, i: usize) -> (r: Option<Vec<u8>>)
    requires
        i < zip_entries(archive_bytes(*old(a))).len(),
    ensures
        archive_bytes(*final(a)) == archive_bytes(*old(a)),
        r is Some <==> zip_entry_ok(archive_bytes(*old(a)), i as int),
        r matches Some(v) ==> v@ == zip_entries(archive_bytes(*old(a)))[i as int].1,
{
    let mut file = match a.by_index(i) {
        Ok(f) => f,
        Err(_) => return None,
    };
    let mut buf = Vec::new();
    match file.read_to_end(&mut buf) {
        Ok(_) => Some(buf),
        Err(_) => None,
    }
}

/// The container-file suffix: members carrying it are containers themselves.
pub open spec fn jar_suffix() -> Seq<char> {
    seq!['.', 'j', 'a', 'r']
}

/// A member of this name is treated as a nested container.
pub open spec fn is_container_name(name: Seq<char>) -> bool {
    has_suffix(name, jar_suffix())
}

/// Whether this file name carries the container suffix, so that a directory
/// walk should open the file as a top-level container.
pub fn is_container_file_name(name: &str) -> (r: bool)
    ensures
        r == is_container_name(name@),
{
    let r = str_has_suffix(name, ".jar");
    proof {
        reveal_strlit(".jar");
        assert(".jar"@ =~= jar_suffix());
    }
    r
}

/// The record produced for a member `name` with contents `data`, found in the
/// container at logical path `cur` under top-level container `outer`.
pub open spec fn match_view(
    name: Seq<char>,
    data: Seq<u8>,
    cur: Seq<char>,
    outer: Seq<char>,
) -> ExtractedClassView {
    ExtractedClassView {
        info: ClassInfoView {
            parent_jar_file_name: outer,
            jar_file_name: cur,
            class_file_name: base_name_of(name),
            class_file_path: path_join_spec(cur, name),
            java_process_list_str: Seq::empty(),
        },
        data: data,
    }
}

/// Depth-first walk over the members of the container `bytes` form, from
/// member `i` on: the matches produced in order, and the error that aborted
/// the walk, if one did.
pub open spec fn search_from(
    bytes: Seq<u8>,
    i: int,
    frag: Seq<char>,
    cur: Seq<char>,
    outer: Seq<char>,
    depth: nat,
) -> (Seq<ExtractedClassView>, Option<HotSwapError>)
    decreases depth, 1nat, zip_entries(bytes).len() - i,
{
    if i < 0 || i >= zip_entries(bytes).len() {
        (Seq::empty(), None)
    } else {
        let head = search_member(bytes, i, frag, cur, outer, depth);
        if head.1 is Some {
            head
        } else {
            let rest = search_from(bytes, i + 1, frag, cur, outer, depth);
            (head.0 + rest.0, rest.1)
        }
    }
}

/// One member of the walk: a nested container is descended into (never also
/// matched), any other member matches when its base name contains the
/// fragment. An unreadable member that the walk must read — a nested
/// container, or a match — aborts it with `IoError`; a container below the
/// remaining depth allowance, like one whose bytes do not open, aborts it
/// with `ContainerFormatError`.
pub open spec fn search_member(
    bytes: Seq<u8>,
    i: int,
    frag: Seq<char>,
    cur: Seq<char>,
    outer: Seq<char>,
    depth: nat,
) -> (Seq<ExtractedClassView>, Option<HotSwapError>)
    decreases depth, 0nat, 0nat,
{
    let name = zip_entries(bytes)[i].0;
    let data = zip_entries(bytes)[i].1;
    if is_container_name(name) {
        if depth == 0 {
            (Seq::empty(), Some(HotSwapError::ContainerFormatError))
        } else if !zip_entry_ok(bytes, i) {
            (Seq::empty(), Some(HotSwapError::IoError))
        } else if !zip_valid(data) {
            (Seq::empty(), Some(HotSwapError::ContainerFormatError))
        } else {
            search_from(data, 0, frag, path_join_spec(cur, name), outer, (depth - 1) as nat)
        }
    } else if contains_fragment(base_name_of(name), frag) {
        if !zip_entry_ok(bytes, i) {
            (Seq::empty(), Some(HotSwapError::IoError))
        } else {
            (seq![match_view(name, data, cur, outer)], None)
        }
    } else {
        (Seq::empty(), None)
    }
}

/// Mapping to views commutes with appending one element.
proof fn lemma_views_push(v: Seq<ExtractedClass>, x: ExtractedClass)
    ensures
        views_of(v.push(x)) == views_of(v).push(x@),
{
    assert(views_of(v.push(x)) =~= views_of(v).push(x@));
}

/// Mapping to views commutes with concatenation.
proof fn lemma_views_concat(a: Seq<ExtractedClass>, b: Seq<ExtractedClass>)
    ensures
        views_of(a + b) == views_of(a) + views_of(b),
{
    assert(views_of(a + b) =~= views_of(a) + views_of(b));
}

/// Unfolding one step of the walk at member `i`: the remainder of the walk
/// is the member at `i` followed, unless it aborted, by the members after it.
proof fn lemma_search_from_step(
    bytes: Seq<u8>,
    frag: Seq<char>,
    cur: Seq<char>,
    outer: Seq<char>,
    depth: nat,
    i: int,
)
    requires
        0 <= i < zip_entries(bytes).len(),
    ensures
        ({
            let head = search_member(bytes, i, frag, cur, outer, depth);
            let rest = search_from(bytes, i + 1, frag, cur, outer, depth);
            search_from(bytes, i, frag, cur, outer, depth) == if head.1 is Some {
                head
            } else {
                (head.0 + rest.0, rest.1)
            }
        }),
{
}

/// Search every member of an open container, descending into nested
/// containers up to `depth` further levels, and collect the members whose
/// base name contains `class_file_fragment`. The result equals the walk over
/// the handle's bytes exactly: it aborts with `ContainerFormatError` at the
/// first container that does not open (or lies below the depth allowance),
/// with `IoError` at the first needed member that does not read, and keeps
/// the matches already produced.
#[verifier::loop_isolation(false)]
pub fn process_jar_archive(
    archive: ZipArchive<Cursor<Vec<u8>>>,
    class_file_fragment: &str,
    current_path: &str,
    parent_jar_file_name: &str,
    depth: usize,
) -> (r: (Vec<ExtractedClass>, Option<HotSwapError>))
    ensures
        views_of(r.0@) == search_from(
            archive_bytes(archive),
            0,
            class_file_fragment@,
            current_path@,
            parent_jar_file_name@,
            depth as nat,
        ).0,
        r.1 == search_from(
            archive_bytes(archive),
            0,
            class_file_fragment@,
            current_path@,
            parent_jar_file_name@,
            depth as nat,
        ).1,
    decreases depth,
{
    let mut ar = archive;
    let ghost b = archive_bytes(ar);
    let ghost frag = class_file_fragment@;
    let ghost cur = current_path@;
    let ghost outer = parent_jar_file_name@;
    let n = archive_len(&ar);
    let mut out: Vec<ExtractedClass> = Vec::new();
    let mut i: usize = 0;
    proof {
        assert(views_of(out@) =~= Seq::<ExtractedClassView>::empty());
        assert(views_of(out@) + search_from(b, 0, frag, cur, outer, depth as nat).0
            =~= search_from(b, 0, frag, cur, outer, depth as nat).0);
    }
    while i < n
        invariant
            archive_bytes(ar) == b,
            n == zip_entries(b).len(),
            i <= n,
            frag == class_file_fragment@,
            cur == current_path@,
            outer == parent_jar_file_name@,
            search_from(b, 0, frag, cur, outer, depth as nat).0 == views_of(out@) + search_from(
                b,
                i as int,
                frag,
                cur,
                outer,
                depth as nat,
            ).0,
            search_from(b, 0, frag, cur, outer, depth as nat).1 == search_from(
                b,
                i as int,
                frag,
                cur,
                outer,
                depth as nat,
            ).1,
        decreases n - i,
    {
        let ghost head = search_member(b, i as int, frag, cur, outer, depth as nat);
        let ghost rest = search_from(b, i as int + 1, frag, cur, outer, depth as nat);
        proof {
            lemma_search_from_step(b, frag, cur, outer, depth as nat, i as int);
        }
        let name = entry_name(&ar, i);
        if is_container_file_name(name.as_str()) {
            if depth == 0 {
                proof {
                    assert(search_from(b, i as int, frag, cur, outer, depth as nat) == head);
                    assert(views_of(out@) + head.0 =~= views_of(out@));
                }
                return (out, Some(HotSwapError::ContainerFormatError));
            }
            let data = match entry_data(&mut ar, i) {
                Some(d) => d,
                None => {
                    proof {
                        assert(head == (
                            Seq::<ExtractedClassView>::empty(),
                            Some(HotSwapError::IoError),
                        ));
                        assert(search_from(b, i as int, frag, cur, outer, depth as nat) == head);
                        assert(views_of(out@) + head.0 =~= views_of(out@));
                    }
                    return (out, Some(HotSwapError::IoError));
                },
            };
            let nested_path = path_join(current_path, name.as_str());
            match open_archive(&data) {
                None => {
                    proof {
                        assert(search_from(b, i as int, frag, cur, outer, depth as nat) == head);
                        assert(views_of(out@) + head.0 =~= views_of(out@));
                    }
                    return (out, Some(HotSwapError::ContainerFormatError));
                },
                Some(nested) => {
                    proof {
                        assert(zip_valid(zip_entries(b)[i as int].1));
                        assert(head == search_from(
                            zip_entries(b)[i as int].1,
                            0,
                            frag,
                            path_join_spec(cur, zip_entries(b)[i as int].0),
                            outer,
                            (depth - 1) as nat,
                        ));
                    }
                    let (mut sub, sub_err) = process_jar_archive(
                        nested,
                        class_file_fragment,
                        nested_path.as_str(),
                        parent_jar_file_name,
                        depth - 1,
                    );
                    let ghost sub0 = sub@;
                    let ghost old_out = out@;
                    proof {
                        lemma_views_concat(out@, sub@);
                        assert(views_of(sub0) == head.0 && sub_err == head.1);
                    }
                    out.append(&mut sub);
                    match sub_err {
                        None => {
                            proof {
                                assert(views_of(old_out) + (head.0 + rest.0) =~= (views_of(
                                    old_out,
                                ) + head.0) + rest.0);
                                assert(search_from(b, 0, frag, cur, outer, depth as nat).0
                                    == views_of(out@) + rest.0);
                            }
                        },
                        Some(e) => {
                            proof {
                                assert(search_from(b, i as int, frag, cur, outer, depth as nat)
                                    == head);
                                assert(views_of(out@) == views_of(old_out) + head.0);
                            }
                            return (out, Some(e));
                        },
                    }
                },
            }
        } else {
            let base = base_name(name.as_str());
            if str_contains_fragment(base.as_str(), class_file_fragment) {
                let data = match entry_data(&mut ar, i) {
                    Some(d) => d,
                    None => {
                        proof {
                            assert(head == (
                                Seq::<ExtractedClassView>::empty(),
                                Some(HotSwapError::IoError),
                            ));
                            assert(search_from(b, i as int, frag, cur, outer, depth as nat)
                                == head);
                            assert(views_of(out@) + head.0 =~= views_of(out@));
                        }
                        return (out, Some(HotSwapError::IoError));
                    },
                };
                let rel = path_join(current_path, name.as_str());
                let item = ExtractedClass {
                    info: ClassInfoDTO {
                        parent_jar_file_name: String::from_str(parent_jar_file_name),
                        jar_file_name: String::from_str(current_path),
                        class_file_name: base,
                        class_file_path: rel,
                        java_process_list_str: String::new(),
                    },
                    data: data,
                };
                proof {
                    lemma_views_push(out@, item);
                    assert(item@ == match_view(
                        zip_entries(b)[i as int].0,
                        zip_entries(b)[i as int].1,
                        cur,
                        outer,
                    ));
                    assert(head.0 == seq![item@] && head.1 is None);
                    assert(views_of(out@).push(item@) =~= views_of(out@) + head.0);
                    assert(views_of(out@) + (head.0 + rest.0) =~= (views_of(out@) + head.0)
                        + rest.0);
                }
                out.push(item);
            } else {
                proof {
                    assert(head.0 == Seq::<ExtractedClassView>::empty() && head.1 is None);
                    assert(views_of(out@) + (head.0 + rest.0) =~= views_of(out@) + rest.0);
                }
            }
        }
        i = i + 1;
    }
    proof {
        assert(search_from(b, n as int, frag, cur, outer, depth as nat) == (Seq::<
            ExtractedClassView,
        >::empty(), None::<HotSwapError>));
        assert(views_of(out@) + Seq::<ExtractedClassView>::empty() =~= views_of(out@));
    }
    (out, None)
}

/// The source-file extension that a deployment request names.
pub open spec fn java_ext() -> Seq<char> {
    seq!['.', 'j', 'a', 'v', 'a']
}

/// The compiled-artifact extension the fragment is rewritten to.
pub open spec fn class_ext() -> Seq<char> {
    seq!['.', 'c', 'l', 'a', 's', 's']
}

/// The source extension rewritten to the artifact extension; a name without
/// the source extension is kept as it is.
pub open spec fn rewrite_extension_spec(s: Seq<char>) -> Seq<char> {
    if has_suffix(s, java_ext()) {
        s.subrange(0, s.len() - java_ext().len()) + class_ext()
    } else {
        s
    }
}

/// The fragment derived from a source identifier: the segment before any
/// classpath separator, its extension rewritten, reduced to its base name.
pub open spec fn derived_fragment(s: Seq<char>) -> Seq<char> {
    base_name_of(rewrite_extension_spec(before_char(s, ':')))
}

/// Rewrite a trailing source extension to the artifact extension.
pub fn rewrite_extension(s: &str) -> (r: String)
    ensures
        r@ == rewrite_extension_spec(s@),
{
    proof {
        reveal_strlit(".java");
        reveal_strlit(".class");
        assert(".java"@ =~= java_ext());
        assert(".class"@ =~= class_ext());
    }
    if str_has_suffix(s, ".java") {
        let n = s.unicode_len();
        let stem = s.substring_char(0, n - 5);
        String::from_str(stem).concat(".class")
    } else {
        String::from_str(s)
    }
}

/// Derive the target fragment from a source identifier such as
/// `com/foo/Bar.java:42`.
pub fn derive_fragment(java_path: &str) -> (r: String)
    ensures
        r@ == derived_fragment(java_path@),
{
    let head = cut_at_char(java_path, ':');
    let rewritten = rewrite_extension(head.as_str());
    base_name(rewritten.as_str())
}

/// The images of the (relative path, bytes) pairs handed in by a directory
/// walk.
pub open spec fn pair_views(files: Seq<(String, Vec<u8>)>) -> Seq<(Seq<char>, Seq<u8>)> {
    files.map_values(|p: (String, Vec<u8>)| (p.0@, p.1@))
}

/// One top-level container file of a directory walk: its relative path seeds
/// both the outer container identifier and the initial logical path.
pub open spec fn search_file(path: Seq<char>, bytes: Seq<u8>, frag: Seq<char>, depth: nat) -> (
    Seq<ExtractedClassView>,
    Option<HotSwapError>,
) {
    if !zip_valid(bytes) {
        (Seq::<ExtractedClassView>::empty(), Some(HotSwapError::ContainerFormatError))
    } else {
        search_from(bytes, 0, frag, path, path, depth)
    }
}

/// The walk over every container file found in a directory tree, in the
/// order handed in; it aborts on the first failure, keeping the matches
/// already produced.
pub open spec fn search_files(files: Seq<(Seq<char>, Seq<u8>)>, frag: Seq<char>, depth: nat) -> (
    Seq<ExtractedClassView>,
    Option<HotSwapError>,
)
    decreases files.len(),
{
    if files.len() == 0 {
        (Seq::<ExtractedClassView>::empty(), None)
    } else {
        let head = search_file(files[0].0, files[0].1, frag, depth);
        if head.1 is Some {
            head
        } else {
            let rest = search_files(files.skip(1), frag, depth);
            (head.0 + rest.0, rest.1)
        }
    }
}

/// Unfolding one step of the directory walk at position `i`.
proof fn lemma_search_files_step(files: Seq<(Seq<char>, Seq<u8>)>, frag: Seq<char>, depth: nat, i: int)
    requires
        0 <= i < files.len(),
    ensures
        ({
            let head = search_file(files[i].0, files[i].1, frag, depth);
            let rest = search_files(files.skip(i + 1), frag, depth);
            search_files(files.skip(i), frag, depth) == if head.1 is Some {
                head
            } else {
                (head.0 + rest.0, rest.1)
            }
        }),
{
    let t = files.skip(i);
    assert(t[0] == files[i]);
    assert(t.skip(1) =~= files.skip(i + 1));
}

/// Search the container files collected from a directory tree, each opened
/// as a top-level container and walked with `process_jar_archive`. The
/// result equals the walk over the handed-in files exactly.
#[verifier::loop_isolation(false)]
pub fn process_directory(files: &Vec<(String, Vec<u8>)>, class_file_fragment: &str, depth: usize) -> (r:
    (Vec<ExtractedClass>, Option<HotSwapError>))
    ensures
        views_of(r.0@) == search_files(pair_views(files@), class_file_fragment@, depth as nat).0,
        r.1 == search_files(pair_views(files@), class_file_fragment@, depth as nat).1,
{
    let ghost full = pair_views(files@);
    let ghost frag = class_file_fragment@;
    let n = files.len();
    let mut out: Vec<ExtractedClass> = Vec::new();
    let mut i: usize = 0;
    proof {
        assert(full.skip(0) =~= full);
        assert(views_of(out@) =~= Seq::<ExtractedClassView>::empty());
        assert(views_of(out@) + search_files(full, frag, depth as nat).0 =~= search_files(
            full,
            frag,
            depth as nat,
        ).0);
    }
    while i < n
        invariant
            i <= n,
            search_files(full, frag, depth as nat).0 == views_of(out@) + search_files(
                full.skip(i as int),
                frag,
                depth as nat,
            ).0,
            search_files(full, frag, depth as nat).1 == search_files(
                full.skip(i as int),
                frag,
                depth as nat,
            ).1,
        decreases n - i,
    {
        let ghost head = search_file(full[i as int].0, full[i as int].1, frag, depth as nat);
        let ghost rest = search_files(full.skip(i as int + 1), frag, depth as nat);
        proof {
            lemma_search_files_step(full, frag, depth as nat, i as int);
        }
        match open_archive(&files[i].1) {
            None => {
                proof {
                    assert(views_of(out@) + head.0 =~= views_of(out@));
                }
                return (out, Some(HotSwapError::ContainerFormatError));
            },
            Some(a) => {
                proof {
                    assert(zip_valid(full[i as int].1));
                }
                let (mut sub, sub_err) = process_jar_archive(
                    a,
                    class_file_fragment,
                    files[i].0.as_str(),
                    files[i].0.as_str(),
                    depth,
                );
                let ghost sub0 = sub@;
                let ghost old_out = out@;
                proof {
                    lemma_views_concat(out@, sub@);
                    assert(views_of(sub0) == head.0 && sub_err == head.1);
                }
                out.append(&mut sub);
                match sub_err {
                    None => {
                        proof {
                            assert(views_of(old_out) + (head.0 + rest.0) =~= (views_of(old_out)
                                + head.0) + rest.0);
                        }
                    },
                    Some(e) => {
                        proof {
                            assert(views_of(out@) == views_of(old_out) + head.0);
                        }
                        return (out, Some(e));
                    },
                }
            },
        }
        i = i + 1;
    }
    proof {
        assert(full.skip(n as int).len() == 0);
        assert(views_of(out@) + Seq::<ExtractedClassView>::empty() =~= views_of(out@));
    }
    (out, None)
}

/// Locate, in the container files of a directory tree, every member whose
/// base name contains the fragment derived from `java_path`.
pub fn extract_class_files_from_directory(
    files: &Vec<(String, Vec<u8>)>,
    java_path: &str,
    depth: usize,
) -> (r: (Vec<ExtractedClass>, Option<HotSwapError>))
    ensures
        views_of(r.0@) == search_files(
            pair_views(files@),
            derived_fragment(java_path@),
            depth as nat,
        ).0,
        r.1 == search_files(pair_views(files@), derived_fragment(java_path@), depth as nat).1,
{
    let fragment = derive_fragment(java_path);
    process_directory(files, fragment.as_str(), depth)
}

/// The matches that the members of `bytes` in `[j, k)` contribute to the
/// walk, in order.
pub open spec fn clean_matches(
    bytes: Seq<u8>,
    j: int,
    k: int,
    frag: Seq<char>,
    cur: Seq<char>,
    outer: Seq<char>,
    depth: nat,
) -> Seq<ExtractedClassView>
    decreases k - j,
{
    if j >= k {
        Seq::empty()
    } else {
        search_member(bytes, j, frag, cur, outer, depth).0 + clean_matches(
            bytes,
            j + 1,
            k,
            frag,
            cur,
            outer,
            depth,
        )
    }
}

/// The corrupt-container abort, generalized over the starting member.
proof fn lemma_corrupt_from(
    bytes: Seq<u8>,
    j: int,
    k: int,
    frag: Seq<char>,
    cur: Seq<char>,
    outer: Seq<char>,
    depth: nat,
)
    requires
        0 <= j <= k < zip_entries(bytes).len(),
        is_container_name(zip_entries(bytes)[k].0),
        zip_entry_ok(bytes, k),
        !zip_valid(zip_entries(bytes)[k].1),
        forall|t: int|
            j <= t < k ==> (#[trigger] search_member(bytes, t, frag, cur, outer, depth)).1
                is None,
    ensures
        search_from(bytes, j, frag, cur, outer, depth).1 == Some(
            HotSwapError::ContainerFormatError,
        ),
        search_from(bytes, j, frag, cur, outer, depth).0 == clean_matches(
            bytes,
            j,
            k,
            frag,
            cur,
            outer,
            depth,
        ),
    decreases k - j,
{
    if j == k {
        let head = search_member(bytes, k, frag, cur, outer, depth);
        assert(head == (
            Seq::<ExtractedClassView>::empty(),
            Some(HotSwapError::ContainerFormatError),
        ));
        assert(search_from(bytes, j, frag, cur, outer, depth) == head);
    } else {
        let head = search_member(bytes, j, frag, cur, outer, depth);
        assert(head.1 is None);
        lemma_corrupt_from(bytes, j + 1, k, frag, cur, outer, depth);
    }
}

/// A member whose name carries the container suffix but whose bytes do not
/// open as a container aborts the whole search with the container failure,
/// while the matches contributed by the members walked before it — nested
/// containers with clean subtrees included — remain in the manifest.
pub proof fn lemma_corrupt_container_aborts(
    bytes: Seq<u8>,
    k: int,
    frag: Seq<char>,
    cur: Seq<char>,
    outer: Seq<char>,
    depth: nat,
)
    requires
        0 <= k < zip_entries(bytes).len(),
        is_container_name(zip_entries(bytes)[k].0),
        zip_entry_ok(bytes, k),
        !zip_valid(zip_entries(bytes)[k].1),
        forall|t: int|
            0 <= t < k ==> (#[trigger] search_member(bytes, t, frag, cur, outer, depth)).1
                is None,
    ensures
        search_from(bytes, 0, frag, cur, outer, depth).1 == Some(
            HotSwapError::ContainerFormatError,
        ),
        search_from(bytes, 0, frag, cur, outer, depth).0 == clean_matches(
            bytes,
            0,
            k,
            frag,
            cur,
            outer,
            depth,
        ),
{
    lemma_corrupt_from(bytes, 0, k, frag, cur, outer, depth);
}

/// Whatever one member of the walk produces stays in the whole walk's
/// manifest, as long as the members before it abort nothing.
proof fn lemma_contains_through(
    bytes: Seq<u8>,
    s: int,
    j: int,
    frag: Seq<char>,
    cur: Seq<char>,
    outer: Seq<char>,
    depth: nat,
    x: ExtractedClassView,
)
    requires
        0 <= s <= j < zip_entries(bytes).len(),
        forall|t: int|
            s <= t < j ==> (#[trigger] search_member(bytes, t, frag, cur, outer, depth)).1
                is None,
        search_member(bytes, j, frag, cur, outer, depth).0.contains(x),
    ensures
        search_from(bytes, s, frag, cur, outer, depth).0.contains(x),
    decreases j - s,
{
    let head = search_member(bytes, s, frag, cur, outer, depth);
    if s == j {
        if head.1 is Some {
            assert(search_from(bytes, s, frag, cur, outer, depth) == head);
        } else {
            let rest = search_from(bytes, s + 1, frag, cur, outer, depth);
            let idx = choose|idx: int| 0 <= idx < head.0.len() && head.0[idx] == x;
            assert((head.0 + rest.0)[idx] == x);
        }
    } else {
        assert(head.1 is None);
        lemma_contains_through(bytes, s + 1, j, frag, cur, outer, depth, x);
        let rest = search_from(bytes, s + 1, frag, cur, outer, depth);
        let idx = choose|idx: int| 0 <= idx < rest.0.len() && rest.0[idx] == x;
        assert((head.0 + rest.0)[head.0.len() + idx] == x);
    }
}

/// The logical path accumulated by descending through a chain of nested
/// containers, outermost first; each chain element names the member index,
/// the member name and the member bytes of one nested container.
pub open spec fn chain_path(cur: Seq<char>, chain: Seq<(int, Seq<char>, Seq<u8>)>) -> Seq<char>
    decreases chain.len(),
{
    if chain.len() == 0 {
        cur
    } else {
        chain_path(path_join_spec(cur, chain[0].1), chain.skip(1))
    }
}

/// The walk starting at `bytes` reaches the member `(member_name,
/// member_data)` at index `member_index` of the deepest container by
/// descending the chain: at each level the chain element is a readable,
/// valid nested container at its stated index, no member before it aborts
/// the walk, the depth allowance suffices, and the deepest member is a
/// readable match.
pub open spec fn chain_reaches(
    bytes: Seq<u8>,
    chain: Seq<(int, Seq<char>, Seq<u8>)>,
    member_index: int,
    member_name: Seq<char>,
    member_data: Seq<u8>,
    frag: Seq<char>,
    cur: Seq<char>,
    outer: Seq<char>,
    depth: nat,
) -> bool
    decreases chain.len(),
{
    if chain.len() == 0 {
        &&& 0 <= member_index < zip_entries(bytes).len()
        &&& zip_entries(bytes)[member_index] == (member_name, member_data)
        &&& !is_container_name(member_name)
        &&& contains_fragment(base_name_of(member_name), frag)
        &&& zip_entry_ok(bytes, member_index)
        &&& forall|t: int|
            0 <= t < member_index ==> (#[trigger] search_member(
                bytes,
                t,
                frag,
                cur,
                outer,
                depth,
            )).1 is None
    } else {
        let j = chain[0].0;
        let name = chain[0].1;
        let data = chain[0].2;
        &&& depth >= 1
        &&& 0 <= j < zip_entries(bytes).len()
        &&& zip_entries(bytes)[j] == (name, data)
        &&& is_container_name(name)
        &&& zip_entry_ok(bytes, j)
        &&& zip_valid(data)
        &&& (forall|t: int|
            0 <= t < j ==> (#[trigger] search_member(bytes, t, frag, cur, outer, depth)).1
                is None)
        &&& chain_reaches(
            data,
            chain.skip(1),
            member_index,
            member_name,
            member_data,
            frag,
            path_join_spec(cur, name),
            outer,
            (depth - 1) as nat,
        )
    }
}

/// However deeply the containers nest, a matching member placed at the
/// deepest level is found: its record — with the containing path equal to
/// the concatenation of every intermediate container's member name in
/// descent order — stands in the walk's manifest.
pub proof fn lemma_deep_nesting_found(
    bytes: Seq<u8>,
    chain: Seq<(int, Seq<char>, Seq<u8>)>,
    member_index: int,
    member_name: Seq<char>,
    member_data: Seq<u8>,
    frag: Seq<char>,
    cur: Seq<char>,
    outer: Seq<char>,
    depth: nat,
)
    requires
        chain_reaches(
            bytes,
            chain,
            member_index,
            member_name,
            member_data,
            frag,
            cur,
            outer,
            depth,
        ),
    ensures
        search_from(bytes, 0, frag, cur, outer, depth).0.contains(
            match_view(member_name, member_data, chain_path(cur, chain), outer),
        ),
    decreases chain.len(),
{
    if chain.len() == 0 {
        let head = search_member(bytes, member_index, frag, cur, outer, depth);
        let mv = match_view(member_name, member_data, cur, outer);
        assert(head.0 == seq![mv]);
        assert(head.0[0] == mv);
        lemma_contains_through(bytes, 0, member_index, frag, cur, outer, depth, mv);
    } else {
        let j = chain[0].0;
        let name = chain[0].1;
        let data = chain[0].2;
        lemma_deep_nesting_found(
            data,
            chain.skip(1),
            member_index,
            member_name,
            member_data,
            frag,
            path_join_spec(cur, name),
            outer,
            (depth - 1) as nat,
        );
        let head = search_member(bytes, j, frag, cur, outer, depth);
        assert(head == search_from(
            data,
            0,
            frag,
            path_join_spec(cur, name),
            outer,
            (depth - 1) as nat,
        ));
        let mv = match_view(
            member_name,
            member_data,
            chain_path(path_join_spec(cur, name), chain.skip(1)),
            outer,
        );
        lemma_contains_through(bytes, 0, j, frag, cur, outer, depth, mv);
    }
}

/// Every record of one walk names the same top-level container: the outer
/// container identifier is handed down unchanged through every nesting
/// level.
pub proof fn lemma_outer_name_stable(
    bytes: Seq<u8>,
    i: int,
    frag: Seq<char>,
    cur: Seq<char>,
    outer: Seq<char>,
    depth: nat,
)
    ensures
        forall|j: int|
            0 <= j < search_from(bytes, i, frag, cur, outer, depth).0.len()
                ==> #[trigger] search_from(
                bytes,
                i,
                frag,
                cur,
                outer,
                depth,
            ).0[j].info.parent_jar_file_name == outer,
    decreases depth, 1nat, zip_entries(bytes).len() - i,
{
    if i < 0 || i >= zip_entries(bytes).len() {
    } else {
        lemma_outer_name_stable_member(bytes, i, frag, cur, outer, depth);
        let head = search_member(bytes, i, frag, cur, outer, depth);
        let whole = search_from(bytes, i, frag, cur, outer, depth);
        if head.1 is Some {
            assert forall|j: int| 0 <= j < whole.0.len() implies #[trigger] whole.0[j]
                .info.parent_jar_file_name == outer by {
                assert(whole.0[j] == head.0[j]);
            }
        } else {
            lemma_outer_name_stable(bytes, i + 1, frag, cur, outer, depth);
            let rest = search_from(bytes, i + 1, frag, cur, outer, depth);
            assert forall|j: int| 0 <= j < whole.0.len() implies #[trigger] whole.0[j]
                .info.parent_jar_file_name == outer by {
                if j < head.0.len() {
                    assert(whole.0[j] == head.0[j]);
                } else {
                    assert(whole.0[j] == rest.0[j - head.0.len()]);
                }
            }
        }
    }
}

/// The single-member step of the walk keeps the outer container identifier.
proof fn lemma_outer_name_stable_member(
    bytes: Seq<u8>,
    i: int,
    frag: Seq<char>,
    cur: Seq<char>,
    outer: Seq<char>,
    depth: nat,
)
    ensures
        forall|j: int|
            0 <= j < search_member(bytes, i, frag, cur, outer, depth).0.len()
                ==> #[trigger] search_member(
                bytes,
                i,
                frag,
                cur,
                outer,
                depth,
            ).0[j].info.parent_jar_file_name == outer,
    decreases depth, 0nat, 0nat,
{
    let name = zip_entries(bytes)[i].0;
    let data = zip_entries(bytes)[i].1;
    let head = search_member(bytes, i, frag, cur, outer, depth);
    if is_container_name(name) {
        if depth >= 1 && zip_entry_ok(bytes, i) && zip_valid(data) {
            lemma_outer_name_stable(data, 0, frag, path_join_spec(cur, name), outer, (depth
                - 1) as nat);
            let sub = search_from(data, 0, frag, path_join_spec(cur, name), outer, (depth
                - 1) as nat);
            assert forall|j: int| 0 <= j < head.0.len() implies #[trigger] head.0[j]
                .info.parent_jar_file_name == outer by {
                assert(head.0[j] == sub.0[j]);
            }
        }
    } else if contains_fragment(base_name_of(name), frag) {
        if zip_entry_ok(bytes, i) {
            assert(head.0 == seq![match_view(name, data, cur, outer)]);
            assert(head.0[0].info.parent_jar_file_name == outer);
        }
    }
}

} // verus!
