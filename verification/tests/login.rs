use boop_server::clients::{check_hash, client_login_is_valid, Client};

#[test]
fn test_hash_validation_correct() {
    let clients = vec![
        Client {
            key: String::from("foo"),
            hash: String::from(
                "$argon2id$v=19$m=32,t=2,p=1$V3hudnFvVEJwTnFjNGRMVA$E+sVHTGn3oMAFHhk27r05A",
            ),
        },
        Client {
            key: String::from("iyoshok"),
            hash: String::from(
                "$argon2id$v=19$m=16,t=2,p=1$bGVWbjBzNEFxZTZLSkh2MA$Z1pgP1acelPKkL2nny9XsA",
            ),
        },
    ];

    let test_res = client_login_is_valid(&String::from("foo"), &String::from("bar"), &clients);
    assert!(test_res.is_ok());
    assert!(test_res.unwrap());
}

#[test]
fn test_hash_validation_incorrect() {
    let clients = vec![
        Client {
            key: String::from("foo"),
            hash: String::from(
                "$argon2id$v=19$m=32,t=2,p=1$V3hudnFvVEJwTnFjNGRMVA$E+sVHTGn3oMAFHhk27r05A",
            ),
        },
        Client {
            key: String::from("iyoshok"),
            hash: String::from(
                "$argon2id$v=19$m=16,t=2,p=1$bGVWbjBzNEFxZTZLSkh2MA$Z1pgP1acelPKkL2nny9XsA",
            ),
        },
    ];

    let test_res = client_login_is_valid(&String::from("foo"), &String::from("barr"), &clients);
    assert!(test_res.is_ok());
    assert!(!test_res.unwrap());

    let test_res = client_login_is_valid(&String::from("fooo"), &String::from("bar"), &clients);
    assert!(test_res.is_ok());
    assert!(!test_res.unwrap());
}

#[test]
fn unreadable_hash_is_an_error() {
    let clients = vec![Client { key: String::from("foo"), hash: String::from("not a hash") }];
    let test_res = client_login_is_valid(&String::from("foo"), &String::from("bar"), &clients);
    assert_eq!(test_res, Err(()));
    let test_res = client_login_is_valid(&String::from("other"), &String::from("bar"), &clients);
    assert_eq!(test_res, Ok(false));
}

#[test]
fn first_record_of_an_identity_decides() {
    let good = "$argon2id$v=19$m=32,t=2,p=1$V3hudnFvVEJwTnFjNGRMVA$E+sVHTGn3oMAFHhk27r05A";
    let other = "$argon2id$v=19$m=16,t=2,p=1$bGVWbjBzNEFxZTZLSkh2MA$Z1pgP1acelPKkL2nny9XsA";
    let clients = vec![
        Client { key: String::from("foo"), hash: String::from(other) },
        Client { key: String::from("foo"), hash: String::from(good) },
    ];
    let test_res = client_login_is_valid(&String::from("foo"), &String::from("bar"), &clients);
    assert_eq!(test_res, Ok(false));
    let clients = vec![
        Client { key: String::from("foo"), hash: String::from(good) },
        Client { key: String::from("foo"), hash: String::from("broken") },
    ];
    let test_res = client_login_is_valid(&String::from("foo"), &String::from("bar"), &clients);
    assert_eq!(test_res, Ok(true));
}

#[test]
fn no_records_no_login() {
    let clients: Vec<Client> = Vec::new();
    let test_res = client_login_is_valid(&String::from("foo"), &String::from("bar"), &clients);
    assert_eq!(test_res, Ok(false));
}

#[test]
fn hash_check_tells_the_three_answers() {
    let good = "$argon2id$v=19$m=32,t=2,p=1$V3hudnFvVEJwTnFjNGRMVA$E+sVHTGn3oMAFHhk27r05A";
    assert_eq!(check_hash(good, "bar"), Ok(true));
    assert_eq!(check_hash(good, "baz"), Ok(false));
    assert_eq!(check_hash("", "bar"), Err(()));
    assert_eq!(check_hash("$argon2id$v=19$m=32,t=2,p=1$$$", "bar"), Err(()));
}
