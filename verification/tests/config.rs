use backup_server::errors::Error;
use backup_server::realms::{RealmLocation, RealmsConfig};
use backup_server::s3::S3Region;

const GOOD: &str = "[realms]\n\n[realms.media]\ntransport = \"S3\"\nprefix = \"project-media\"\ncontains = \"media\"\naccess_key = \"AK\"\nsecret_access_key = \"SK\"\nbucket = \"bkt\"\nregion = \"eu-west-1\"\n";

#[test]
fn load_reads_fields() {
    let cfg = RealmsConfig::from_toml(GOOD).unwrap();
    assert_eq!(cfg.realms.len(), 1);
    let (name, realm) = &cfg.realms[0];
    assert_eq!(name, "media");
    assert_eq!(realm.prefix, "project-media");
    assert_eq!(realm.contains, "media");
    let RealmLocation::S3 { access_key, secret_access_key, bucket, region } = &realm.location;
    assert_eq!(access_key, "AK");
    assert_eq!(secret_access_key, "SK");
    assert_eq!(bucket, "bkt");
    assert_eq!(region, &S3Region::Region("eu-west-1".to_string()));
}

#[test]
fn load_is_deterministic() {
    let a = RealmsConfig::from_toml(GOOD).unwrap();
    let b = RealmsConfig::from_toml(GOOD).unwrap();
    assert_eq!(a, b);
}

#[test]
fn load_defaults_prefix_and_contains() {
    let text = "[realms.r]\ntransport = \"S3\"\naccess_key = \"\"\nsecret_access_key = \"\"\nbucket = \"b\"\nendpoint = \"http://e\"\n";
    let cfg = RealmsConfig::from_toml(text).unwrap();
    let (_, realm) = &cfg.realms[0];
    assert_eq!(realm.prefix, "");
    assert_eq!(realm.contains, "");
    let RealmLocation::S3 { region, .. } = &realm.location;
    assert_eq!(region, &S3Region::Endpoint("http://e".to_string()));
}

#[test]
fn load_accepts_comments_and_blank_lines() {
    let text = "# realms of the backup server\n\n[realms.r]\ntransport = \"S3\"\naccess_key = \"\"\nsecret_access_key = \"\"\nbucket = \"b\"\nregion = \"us-east-1\"\n";
    let cfg = RealmsConfig::from_toml(text).unwrap();
    assert_eq!(cfg.realms[0].0, "r");
}

#[test]
fn load_keeps_order_of_two_realms() {
    let text = "[realms.one]\ntransport = \"S3\"\naccess_key = \"\"\nsecret_access_key = \"\"\nbucket = \"b1\"\nregion = \"us-east-1\"\n[realms.two]\ntransport = \"S3\"\naccess_key = \"\"\nsecret_access_key = \"\"\nbucket = \"b2\"\nregion = \"us-east-2\"\n";
    let cfg = RealmsConfig::from_toml(text).unwrap();
    assert_eq!(cfg.realms.len(), 2);
    assert_eq!(cfg.realms[0].0, "one");
    assert_eq!(cfg.realms[1].0, "two");
}

fn parse_err(text: &str) {
    assert_eq!(RealmsConfig::from_toml(text).unwrap_err(), Error::ConfigParse);
}

#[test]
fn load_rejects_bad_shapes() {
    // assignment outside any realm section
    parse_err("a = \"b\"\n");
    // unquoted value
    parse_err("[realms.r]\ntransport = S3\n");
    // unknown transport
    parse_err(
        "[realms.r]\ntransport = \"ftp\"\naccess_key = \"\"\nsecret_access_key = \"\"\nbucket = \"b\"\nregion = \"us-east-1\"\n",
    );
    // missing bucket
    parse_err("[realms.r]\ntransport = \"S3\"\naccess_key = \"\"\nsecret_access_key = \"\"\nregion = \"us-east-1\"\n");
    // both region and endpoint
    parse_err(
        "[realms.r]\ntransport = \"S3\"\naccess_key = \"\"\nsecret_access_key = \"\"\nbucket = \"b\"\nregion = \"us-east-1\"\nendpoint = \"http://e\"\n",
    );
    // neither region nor endpoint
    parse_err("[realms.r]\ntransport = \"S3\"\naccess_key = \"\"\nsecret_access_key = \"\"\nbucket = \"b\"\n");
    // duplicate key in one section
    parse_err(
        "[realms.r]\ntransport = \"S3\"\ntransport = \"S3\"\naccess_key = \"\"\nsecret_access_key = \"\"\nbucket = \"b\"\nregion = \"us-east-1\"\n",
    );
    // duplicate realm name
    parse_err(
        "[realms.r]\ntransport = \"S3\"\naccess_key = \"\"\nsecret_access_key = \"\"\nbucket = \"b\"\nregion = \"us-east-1\"\n[realms.r]\ntransport = \"S3\"\naccess_key = \"\"\nsecret_access_key = \"\"\nbucket = \"b\"\nregion = \"us-east-1\"\n",
    );
    // unknown field key
    parse_err(
        "[realms.r]\ntransport = \"S3\"\nowner = \"me\"\naccess_key = \"\"\nsecret_access_key = \"\"\nbucket = \"b\"\nregion = \"us-east-1\"\n",
    );
    // malformed header
    parse_err("[realms.r\ntransport = \"S3\"\n");
    // escape in a value
    parse_err("[realms.r]\ntransport = \"S\\3\"\n");
}
