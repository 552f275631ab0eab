//! Joining a file name onto a directory path, as `std::path::Path::join`
//! does on Unix for a relative name.
use vstd::prelude::*;
use vstd::string::*;

verus! {

/// `dir` joined with the relative name `name`: a `/` goes between them unless
/// `dir` is empty or already ends with `/`.
pub open spec fn path_join_spec(dir: Seq<char>, name: Seq<char>) -> Seq<char> {
    if dir.len() == 0 || dir.last() == '/' {
        dir + name
    } else {
        dir + seq!['/'] + name
    }
}

/// The characters of `s`, in order.
pub fn chars_of(s: &str) -> (v: Vec<char>)
    ensures
        v@ == s@,
{
    broadcast use vstd::string::axiom_spec_iter;

    let mut v: Vec<char> = Vec::new();
    for c in it: s.chars()
        invariant
            v@ == it.seq().take(it.index() as int),
            it.seq() == s@,
    {
        v.push(c);
    }
    v
}

/// `dir` joined with the relative name `name`.
pub fn path_join(dir: &str, name: &str) -> (r: String)
    ensures
        r@ == path_join_spec(dir@, name@),
{
    let chars = chars_of(dir);
    let mut r = dir.to_owned();
    let n = chars.len();
    if n != 0 && chars[n - 1] != '/' {
        r.append("/");
        proof {
            reveal_strlit("/");
        }
    }
    r.append(name);
    r
}

/// Joining keeps the directory as a prefix and the name as a suffix, puts
/// exactly one `/` between a nonempty directory and the name (adding one only
/// when the directory does not already end with `/`), and adds nothing else.
/// So the joined path names the file `name` inside `dir`.
pub proof fn lemma_path_join(dir: Seq<char>, name: Seq<char>)
    ensures
        ({
            let r = path_join_spec(dir, name);
            &&& r.len() <= dir.len() + name.len() + 1
            &&& r.take(dir.len() as int) == dir
            &&& r.skip(r.len() - name.len()) == name
            &&& dir.len() > 0 ==> r[r.len() - name.len() - 1] == '/'
            &&& (dir.len() == 0 || dir.last() == '/') ==> r == dir + name
            &&& (dir.len() > 0 && dir.last() != '/') ==> r == dir + seq!['/'] + name
        }),
{
    let r = path_join_spec(dir, name);
    if dir.len() == 0 || dir.last() == '/' {
        assert(r.take(dir.len() as int) =~= dir);
        assert(r.skip(r.len() - name.len()) =~= name);
    } else {
        assert(r.take(dir.len() as int) =~= dir);
        assert(r.skip(r.len() - name.len()) =~= name);
        assert(r[dir.len() as int] == '/');
    }
}

} // verus!
