use vstd::prelude::*;

verus! {

/// Relies on String::push_str: it appends the given characters.
#[verifier::external_body]
fn string_push_str(s: &mut String, t: &str)
    ensures
        final(s)@ == old(s)@ + t@,
{
    s.push_str(t);
}

/// The path of the metadata file inside the vaults directory.
pub fn get_meta_path(vaults_dir: &str) -> (r: String)
    ensures
        r@ == vaults_dir@ + "/vault.meta"@,
{
    let mut p = vaults_dir.to_owned();
    string_push_str(&mut p, "/vault.meta");
    p
}

/// The path of the encrypted store file inside the vaults directory.
pub fn get_db_path(vaults_dir: &str) -> (r: String)
    ensures
        r@ == vaults_dir@ + "/vault.db"@,
{
    let mut p = vaults_dir.to_owned();
    string_push_str(&mut p, "/vault.db");
    p
}

} // verus!
