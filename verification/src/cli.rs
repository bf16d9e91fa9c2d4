use vstd::prelude::*;

verus! {

/// A path on the file system.
#[verifier::external_type_specification]
#[verifier::external_body]
pub struct ExPathBuf(std::path::PathBuf);

/// An error of the input/output layer.
#[verifier::external_type_specification]
#[verifier::external_body]
pub struct ExIoError(std::io::Error);

/// The command line: the configuration file and the service to run.
#[derive(Debug)]
pub struct Opts {
    pub config: std::path::PathBuf,
    pub cmd: SubCommand,
}

/// The services the program can run.
#[derive(Debug)]
pub enum SubCommand {
    IpConfig(IpConfigOpts),
    State(StateConfigOpts),
}

/// Options of the IP configuration service.
#[derive(Debug)]
pub struct IpConfigOpts {}

/// Options of the state service.
#[derive(Debug)]
pub struct StateConfigOpts {}

/// The sum of `a` and `b`.
pub fn plus(a: u64, b: u64) -> (sum: Result<u64, std::io::Error>)
    requires
        a + b <= u64::MAX,
    ensures
        sum matches Ok(s) && s == a + b,
{
    Ok(a + b)
}

} // verus!
