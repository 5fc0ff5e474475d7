//! Password handling and the administrator bootstrap.

use vstd::prelude::*;
use vstd::string::*;

use crate::error_handler::AppError;
use crate::storage::{fresh_id, first_user_with_name, AdminUser, JsonStorage};

verus! {

/// Credentials presented at login.
pub struct LoginRequest {
    pub username: String,
    pub password: String,
}

/// What a successful login reports back.
pub struct LoginResponse {
    pub message: String,
    pub user_id: u128,
}

/// Whether Argon2 password verification accepts `password` against the
/// PHC-formatted `hash`. The outcome depends on the two texts alone.
pub uninterp spec fn argon2_verifies(password: Seq<char>, hash: Seq<char>) -> bool;

/// Hash a password using Argon2 with a freshly drawn random salt.
///
/// Relies on argon2's `Argon2::hash_password`: a hash it produces verifies
/// against the password it was produced from, whatever salt was drawn.
#[verifier::external_body]
pub fn hash_password(password: &str) -> (r: Result<String, AppError>)
    ensures
        r is Ok ==> argon2_verifies(password@, r->Ok_0@),
        r is Err ==> r->Err_0 is Auth && r->Err_0.message_view() == "Password hashing error"@,
{
    let salt = argon2::password_hash::SaltString::generate(
        &mut argon2::password_hash::rand_core::OsRng,
    );
    match argon2::password_hash::PasswordHasher::hash_password(
        &argon2::Argon2::default(),
        password.as_bytes(),
        &salt,
    ) {
        Ok(hash) => Ok(hash.to_string()),
        Err(_) => Err(AppError::Auth(String::from("Password hashing error"))),
    }
}

/// Verify a password against a hash.
///
/// Relies on argon2's `Argon2::verify_password`; fails only when the hash
/// text cannot be parsed as a PHC string.
#[verifier::external_body]
pub fn verify_password(password: &str, hash: &str) -> (r: Result<bool, AppError>)
    ensures
        r is Ok ==> r->Ok_0 == argon2_verifies(password@, hash@),
        r is Err ==> r->Err_0 is Auth && r->Err_0.message_view() == "Password hashing error"@,
{
    match argon2::password_hash::PasswordHash::new(hash) {
        Ok(parsed) => Ok(
            argon2::password_hash::PasswordVerifier::verify_password(
                &argon2::Argon2::default(),
                password.as_bytes(),
                &parsed,
            ).is_ok(),
        ),
        Err(_) => Err(AppError::Auth(String::from("Password hashing error"))),
    }
}

/// Checks the given credentials against the stored admin users: the id of
/// the matching user comes back exactly when a user with that name exists,
/// the stored hash parses, and the password verifies against it.
pub fn authenticate_admin(storage: &JsonStorage, username: &str, password: &str) -> (r: Result<
    u128,
    AppError,
>)
    ensures
        ({
            let found = first_user_with_name(storage.users(), username@);
            &&& r is Ok ==> found is Some && r->Ok_0 == found->Some_0.id && argon2_verifies(
                password@,
                found->Some_0.password_hash,
            )
            &&& found is None ==> r is Err && r->Err_0 is Auth
            &&& (found is Some && !argon2_verifies(password@, found->Some_0.password_hash))
                ==> r is Err
        }),
{
    let user = match storage.get_admin_user_by_username(username) {
        Some(user) => user,
        None => {
            return Err(AppError::Auth(String::from_str("Invalid username or password")));
        },
    };
    match verify_password(password, user.password_hash.as_str()) {
        Ok(true) => Ok(user.id),
        Ok(false) => Err(AppError::Auth(String::from_str("Invalid username or password"))),
        Err(e) => Err(e),
    }
}

/// Create a default admin user if none exists.
///
/// On an empty user collection, one user named `admin` is stored whose
/// password hash verifies the documented default password; otherwise the
/// store is left alone. The result reports whether a user was created.
pub fn create_default_admin(storage: &mut JsonStorage) -> (r: Result<bool, AppError>)
    ensures
        ({
            let u0 = old(storage).users();
            let u1 = final(storage).users();
            &&& u0.len() > 0 ==> r == Ok::<bool, AppError>(false) && u1 == u0
            &&& u0.len() == 0 && r is Ok ==> r->Ok_0 == true && u1.len() == 1
                && u1[0].username == "admin"@
                && argon2_verifies("admin123"@, u1[0].password_hash)
            &&& r is Err ==> u1 == u0
        }),
        final(storage).items() == old(storage).items(),
        final(storage).notices_view() == old(storage).notices_view(),
        final(storage).presets() == old(storage).presets(),
        final(storage).schedules() == old(storage).schedules(),
{
    let users = storage.get_admin_users();
    if users.len() > 0 {
        return Ok(false);
    }
    let password_hash = match hash_password("admin123") {
        Ok(h) => h,
        Err(e) => {
            return Err(e);
        },
    };
    let admin_user = AdminUser { id: fresh_id(), username: String::from_str("admin"), password_hash };
    storage.add_admin_user(admin_user);
    Ok(true)
}

} // verus!
